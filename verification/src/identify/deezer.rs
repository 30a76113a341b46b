//! Deezer: the covers and albums that MusicBrainz lacks. This module holds
//! what the client computes — URL encoding, years, cover choice — apart from
//! the network.
use vstd::prelude::*;

use crate::identify::catalog::{Candidate, ZERO_SCORE_KEY};
use crate::identify::verdict::signed_decimal;
use crate::library::metadata::opt_view;
use crate::text::{
    chars_of, parse_u32_spec, push_all, push_str, slice_chars, string_from, trim, trim_chars,
    write_decimal,
};

verus! {

/// An unreserved byte, written as is in a URL component.
pub open spec fn is_unreserved(b: u8) -> bool {
    (65 <= b && b <= 90) || (97 <= b && b <= 122) || (48 <= b && b <= 57) || b == 45 || b == 95
        || b == 46 || b == 126
}

/// An upper-case hexadecimal digit.
pub open spec fn hex_upper(d: nat) -> char {
    if d < 10 {
        ((d + 48) as u32) as char
    } else {
        ((d + 55) as u32) as char
    }
}

/// How one byte is written in a URL component: unreserved bytes as themselves,
/// the space as `%20`, every other byte as `%XX`.
pub open spec fn percent_byte(b: u8) -> Seq<char> {
    if is_unreserved(b) {
        seq![(b as u32) as char]
    } else {
        seq!['%', hex_upper((b / 16) as nat), hex_upper((b % 16) as nat)]
    }
}

/// The URL-component encoding of bytes.
pub open spec fn percent_encoded(bytes: Seq<u8>) -> Seq<char>
    decreases bytes.len(),
{
    if bytes.len() == 0 {
        seq![]
    } else {
        percent_encoded(bytes.drop_last()) + percent_byte(bytes.last())
    }
}

/// The URL-component encoding of a string: its UTF-8 bytes, each written by
/// `percent_byte`.
pub open spec fn url_encoded(value: Seq<char>) -> Seq<char> {
    percent_encoded(vstd::utf8::encode_utf8(value))
}

/// An upper-case hexadecimal digit.
fn hex_digit(d: u8) -> (c: char)
    requires
        d < 16,
    ensures
        c == hex_upper(d as nat),
{
    if d < 10 {
        (d + 48) as char
    } else {
        (d + 55) as char
    }
}

/// URL component encoding.
///
/// Shared with the iTunes client: two implementations of the same rule would
/// end up diverging.
pub fn encode(value: &str) -> (r: String)
    ensures
        r@ == url_encoded(value@),
{
    let bytes = value.as_bytes();
    let mut out: Vec<char> = Vec::new();
    let mut i: usize = 0;
    while i < bytes.len()
        invariant
            i <= bytes@.len(),
            bytes@ == vstd::utf8::encode_utf8(value@),
            out@ == percent_encoded(bytes@.take(i as int)),
        decreases bytes@.len() - i,
    {
        let b = bytes[i];
        assert(bytes@.take(i + 1).drop_last() =~= bytes@.take(i as int));
        if (65 <= b && b <= 90) || (97 <= b && b <= 122) || (48 <= b && b <= 57) || b == 45 || b
            == 95 || b == 46 || b == 126 {
            out.push(b as char);
        } else {
            out.push('%');
            out.push(hex_digit(b / 16));
            out.push(hex_digit(b % 16));
        }
        i = i + 1;
    }
    assert(bytes@.take(i as int) =~= bytes@);
    string_from(out.as_slice())
}

/// The year of a date: its first four characters, read as an unsigned number
/// (what `date.get(..4)` then `parse::<u32>()` give; a shorter or non-ASCII
/// head cannot parse).
pub open spec fn leading_year(date: Seq<char>) -> Option<u32> {
    if date.len() >= 4 {
        parse_u32_spec(date.take(4))
    } else {
        None
    }
}

/// The year of an `AAAA-MM-JJ` date.
pub fn parse_year(date: &str) -> (r: Option<u32>)
    ensures
        r == leading_year(date@),
{
    let v = chars_of(date);
    if v.len() < 4 {
        return None;
    }
    let head = slice_chars(v.as_slice(), 0, 4);
    assert(head@ =~= date@.take(4));
    crate::text::parse_u32(head.as_slice())
}

/// The album of a search hit.
#[derive(Debug, Clone)]
pub struct Album {
    pub id: Option<i64>,
    pub title: Option<String>,
    pub cover_xl: Option<String>,
    pub cover_big: Option<String>,
    pub cover_medium: Option<String>,
}

/// A usable address: present and not blank.
pub open spec fn usable(url: Option<String>) -> bool {
    url matches Some(u) && trim(u@).len() > 0
}

/// The largest usable cover of an album.
pub open spec fn best_of(album: Album) -> Option<Seq<char>> {
    if usable(album.cover_xl) {
        Some(album.cover_xl->0@)
    } else if usable(album.cover_big) {
        Some(album.cover_big->0@)
    } else if usable(album.cover_medium) {
        Some(album.cover_medium->0@)
    } else {
        None
    }
}

impl Album {
    /// The largest size available: `cover_xl` is 1000 px, `cover_big` 500; the
    /// smaller ones are only used for want of anything better.
    pub fn best_cover(&self) -> (r: Option<String>)
        ensures
            usable(self.cover_xl) ==> (r matches Some(u) && u@ == self.cover_xl->0@),
            !usable(self.cover_xl) && usable(self.cover_big) ==> (r matches Some(u) && u@
                == self.cover_big->0@),
            !usable(self.cover_xl) && !usable(self.cover_big) && usable(self.cover_medium) ==> (r matches Some(u) && u@ == self.cover_medium->0@),
            !usable(self.cover_xl) && !usable(self.cover_big) && !usable(self.cover_medium) ==> r is None,
            opt_view(r) == best_of(*self),
    {
        if let Some(u) = &self.cover_xl {
            if trim_chars(chars_of(u.as_str()).as_slice()).len() > 0 {
                return Some(u.clone());
            }
        }
        if let Some(u) = &self.cover_big {
            if trim_chars(chars_of(u.as_str()).as_slice()).len() > 0 {
                return Some(u.clone());
            }
        }
        if let Some(u) = &self.cover_medium {
            if trim_chars(chars_of(u.as_str()).as_slice()).len() > 0 {
                return Some(u.clone());
            }
        }
        None
    }
}

/// The artist of a search hit.
#[derive(Debug, Clone)]
pub struct Artist {
    pub name: Option<String>,
}

/// A search hit, as the service describes it.
#[derive(Debug, Clone)]
pub struct SearchHit {
    pub title: String,
    /// Duration in seconds.
    pub duration: i64,
    pub artist: Option<Artist>,
    pub album: Option<Album>,
}

/// An integer in decimal, as `{}` formats it.
fn id_text(n: i64) -> (r: String)
    ensures
        r@ == signed_decimal(n as int),
{
    if n < 0 {
        let magnitude: u64 = (-(n + 1)) as u64 + 1;
        let mut v: Vec<char> = Vec::new();
        v.push('-');
        let d = write_decimal(magnitude);
        push_all(&mut v, d.as_slice());
        string_from(v.as_slice())
    } else {
        let d = write_decimal(n as u64);
        string_from(d.as_slice())
    }
}

impl Candidate {
    /// The record a Deezer hit gives. Deezer counts in seconds, the rest of the
    /// library in milliseconds; the year comes separately, only for a record
    /// that is kept.
    pub fn from_deezer(hit: SearchHit) -> (r: Candidate)
        requires
            i64::MIN <= hit.duration * 1000 <= i64::MAX,
        ensures
            r.source@ == "Deezer"@,
            r.title == hit.title,
            opt_view(r.artist) == (match hit.artist {
                Some(a) => opt_view(a.name),
                None => None,
            }),
            opt_view(r.album) == (match hit.album {
                Some(al) => opt_view(al.title),
                None => None,
            }),
            r.year is None,
            r.duration_ms == hit.duration * 1000,
            opt_view(r.cover_url) == (match hit.album {
                Some(al) => best_of(al),
                None => None,
            }),
            opt_view(r.preview_url) == (match hit.album {
                Some(al) => opt_view(al.cover_medium),
                None => None,
            }),
            opt_view(r.album_ref) == (match hit.album {
                Some(al) => match al.id {
                    Some(id) => Some(signed_decimal(id as int)),
                    None => None,
                },
                None => None,
            }),
            r.score_key == ZERO_SCORE_KEY,
    {
        let (album, cover_url, preview_url, album_ref) = match &hit.album {
            Some(al) => (
                al.title.clone(),
                al.best_cover(),
                al.cover_medium.clone(),
                match al.id {
                    Some(id) => Some(id_text(id)),
                    None => None,
                },
            ),
            None => (None, None, None, None),
        };
        let artist = match hit.artist {
            Some(a) => a.name,
            None => None,
        };
        let duration_ms = hit.duration * 1000;
        let mut r = Candidate::new("Deezer", hit.title);
        r.artist = artist;
        r.album = album;
        r.duration_ms = duration_ms;
        r.cover_url = cover_url;
        r.preview_url = preview_url;
        r.album_ref = album_ref;
        r
    }
}

/// Where the catalogue is searched.
pub const SEARCH_ENDPOINT: &'static str = "https://api.deezer.com/search";

/// Where an album is described.
pub const ALBUM_ENDPOINT: &'static str = "https://api.deezer.com/album";

/// The search request for a text: eight hits.
pub fn search_url(term: &str) -> (r: String)
    ensures
        r@ == SEARCH_ENDPOINT@ + "?q="@ + url_encoded(term@) + "&limit=8"@,
{
    let mut out = chars_of(SEARCH_ENDPOINT);
    push_str(&mut out, "?q=");
    push_str(&mut out, encode(term).as_str());
    push_str(&mut out, "&limit=8");
    string_from(out.as_slice())
}

/// The request that describes an album, by its reference; the search does not
/// give the year, so it is asked only for a record that is kept.
pub fn album_url(album_ref: &str) -> (r: String)
    ensures
        r@ == ALBUM_ENDPOINT@ + "/"@ + album_ref@,
{
    let mut out = chars_of(ALBUM_ENDPOINT);
    push_str(&mut out, "/");
    push_str(&mut out, album_ref);
    string_from(out.as_slice())
}

} // verus!
