//! LRCLIB: the lyrics the files lack. This module holds what the client
//! computes — the request URL and the choice among the answers — apart from the
//! network.
use vstd::prelude::*;

use crate::identify::deezer::url_encoded;
use crate::identify::verdict::{signed_decimal, tdiv};
use crate::text::{chars_of, decimal, push_all, push_str, string_from, trim, trim_chars, write_decimal};

verus! {

/// Tolerated duration gap, in seconds: beyond two seconds, LRCLIB considers it
/// another recording and returns nothing.
pub const DURATION_TOLERANCE_S: i64 = 2;

/// A free service: at least one second between two requests, in milliseconds.
pub const MIN_INTERVAL: u64 = 1_000;

/// What is asked.
#[derive(Debug, Clone)]
pub struct LyricsQuery {
    pub title: String,
    pub artist: String,
    pub album: Option<String>,
    pub duration_ms: i64,
}

/// What is obtained.
#[derive(Debug, Clone, PartialEq, Eq)]
pub struct FetchedLyrics {
    /// Raw content, timed LRC when the service has it.
    pub raw: String,
    pub synced: bool,
}

/// The service's answer, as plain values.
#[derive(Debug, Clone)]
pub struct GetResponse {
    pub plain_lyrics: Option<String>,
    pub synced_lyrics: Option<String>,
    pub instrumental: bool,
}

/// An album worth sending: present and not blank.
pub open spec fn album_sent(album: Option<String>) -> bool {
    album matches Some(a) && trim(a@).len() > 0
}

/// The request URL: title, artist and duration in seconds (rounded towards
/// zero); the album only when there is one, since a wrong album would make a
/// search fail that succeeds without it.
pub open spec fn request_url(q: LyricsQuery) -> Seq<char> {
    let base = "https://lrclib.net/api/get?track_name="@ + url_encoded(q.title@)
        + "&artist_name="@ + url_encoded(q.artist@) + "&duration="@ + signed_decimal(
        tdiv(q.duration_ms as int, 1000),
    );
    if album_sent(q.album) {
        base + "&album_name="@ + url_encoded(q.album->0@)
    } else {
        base
    }
}

/// URL component encoding.
pub fn encode(value: &str) -> (r: String)
    ensures
        r@ == url_encoded(value@),
{
    crate::identify::deezer::encode(value)
}

/// Builds the request URL.
pub fn build_url(query: &LyricsQuery) -> (r: String)
    ensures
        r@ == request_url(*query),
{
    let mut out: Vec<char> = Vec::new();
    push_str(&mut out, "https://lrclib.net/api/get?track_name=");
    push_str(&mut out, encode(query.title.as_str()).as_str());
    push_str(&mut out, "&artist_name=");
    push_str(&mut out, encode(query.artist.as_str()).as_str());
    push_str(&mut out, "&duration=");
    let seconds = query.duration_ms / 1000;
    assert(seconds == tdiv(query.duration_ms as int, 1000));
    if seconds < 0 {
        out.push('-');
        let d = write_decimal((-seconds) as u64);
        push_all(&mut out, d.as_slice());
    } else {
        let d = write_decimal(seconds as u64);
        push_all(&mut out, d.as_slice());
    }
    let ghost base = out@;
    assert(base =~= "https://lrclib.net/api/get?track_name="@ + url_encoded(query.title@)
        + "&artist_name="@ + url_encoded(query.artist@) + "&duration="@ + signed_decimal(
        tdiv(query.duration_ms as int, 1000),
    ));
    if let Some(album) = &query.album {
        if trim_chars(chars_of(album.as_str()).as_slice()).len() > 0 {
            push_str(&mut out, "&album_name=");
            push_str(&mut out, encode(album.as_str()).as_str());
            assert(out@ =~= base + "&album_name="@ + url_encoded(album@));
        }
    }
    string_from(out.as_slice())
}

/// A usable text: present and not blank once trimmed.
pub open spec fn usable_text(t: Option<String>) -> bool {
    t matches Some(s) && trim(s@).len() > 0
}

/// Keeps the best form available: timed lyrics first, plain text otherwise;
/// nothing for an instrumental.
pub fn pick(response: &GetResponse) -> (r: Option<FetchedLyrics>)
    ensures
        response.instrumental ==> r is None,
        !response.instrumental && usable_text(response.synced_lyrics) ==> (r matches Some(f)
            && f.synced && f.raw@ == trim(response.synced_lyrics->0@)),
        !response.instrumental && !usable_text(response.synced_lyrics) && usable_text(
            response.plain_lyrics,
        ) ==> (r matches Some(f) && !f.synced && f.raw@ == trim(response.plain_lyrics->0@)),
        !response.instrumental && !usable_text(response.synced_lyrics) && !usable_text(
            response.plain_lyrics,
        ) ==> r is None,
{
    if response.instrumental {
        return None;
    }
    if let Some(s) = &response.synced_lyrics {
        let t = trim_chars(chars_of(s.as_str()).as_slice());
        if t.len() > 0 {
            return Some(FetchedLyrics { raw: string_from(t.as_slice()), synced: true });
        }
    }
    if let Some(p) = &response.plain_lyrics {
        let t = trim_chars(chars_of(p.as_str()).as_slice());
        if t.len() > 0 {
            return Some(FetchedLyrics { raw: string_from(t.as_slice()), synced: false });
        }
    }
    None
}

} // verus!
