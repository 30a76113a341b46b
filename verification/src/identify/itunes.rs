//! iTunes: what the client computes apart from the network.
use vstd::prelude::*;

use crate::identify::catalog::{Candidate, ZERO_SCORE_KEY};
use crate::identify::deezer::{leading_year, url_encoded};
use crate::library::metadata::opt_view;
use crate::text::{chars_of, matches_at, occurs_at, push_all, push_str, string_from};

verus! {

/// Every occurrence of `pat`, taken from the left without overlap, replaced by
/// `rep` — what `str::replace` does (for a non-empty pattern).
pub open spec fn replaced(s: Seq<char>, pat: Seq<char>, rep: Seq<char>) -> Seq<char>
    recommends
        pat.len() > 0,
    decreases s.len(),
{
    if s.len() == 0 || pat.len() == 0 {
        s
    } else if occurs_at(s, pat, 0) {
        rep + replaced(s.skip(pat.len() as int), pat, rep)
    } else {
        seq![s[0]] + replaced(s.drop_first(), pat, rep)
    }
}

/// `s` with every `pat` replaced by `rep`.
pub fn replace_all(s: &[char], pat: &[char], rep: &[char]) -> (r: Vec<char>)
    requires
        pat@.len() > 0,
    ensures
        r@ == replaced(s@, pat@, rep@),
{
    let mut out: Vec<char> = Vec::new();
    let mut i: usize = 0;
    assert(s@.skip(0) =~= s@);
    while i < s.len()
        invariant
            i <= s@.len(),
            pat@.len() > 0,
            out@ + replaced(s@.skip(i as int), pat@, rep@) == replaced(s@, pat@, rep@),
        decreases s@.len() - i,
    {
        let ghost rest = s@.skip(i as int);
        if matches_at(s, pat, i) {
            assert(rest.subrange(0, pat@.len() as int) =~= s@.subrange(i as int, i + pat@.len()));
            assert(rest.skip(pat@.len() as int) =~= s@.skip(i + pat@.len()));
            push_all(&mut out, rep);
            assert(out@ + replaced(s@.skip(i + pat@.len()), pat@, rep@) =~= old_out_plus(
                out@,
                rep@,
                s@,
                pat@,
                i as int,
            ));
            i = i + pat.len();
        } else {
            assert(!occurs_at(rest, pat@, 0)) by {
                if rest.len() >= pat@.len() {
                    assert(rest.subrange(0, pat@.len() as int) =~= s@.subrange(
                        i as int,
                        i + pat@.len(),
                    ));
                }
            }
            assert(rest.drop_first() =~= s@.skip(i + 1));
            assert(rest[0] == s@[i as int]);
            let c = s[i];
            out.push(c);
            assert(out@ + replaced(s@.skip(i + 1), pat@, rep@) =~= out@.drop_last() + (seq![c]
                + replaced(s@.skip(i + 1), pat@, rep@)));
            i = i + 1;
        }
    }
    assert(s@.skip(i as int).len() == 0);
    assert(out@ + Seq::<char>::empty() =~= out@);
    out
}

/// Helper view used while replacing.
pub open spec fn old_out_plus(out: Seq<char>, rep: Seq<char>, s: Seq<char>, pat: Seq<char>, i: int) -> Seq<char> {
    out + replaced(s.skip(i + pat.len()), pat, rep)
}

/// `100x100bb`.
pub open spec fn small_size() -> Seq<char> {
    seq!['1', '0', '0', 'x', '1', '0', '0', 'b', 'b']
}

/// `1000x1000bb`.
pub open spec fn large_size() -> Seq<char> {
    seq!['1', '0', '0', '0', 'x', '1', '0', '0', '0', 'b', 'b']
}

/// Asks for the large version of the cover: the service serves every size at
/// the same address, only the size in it changes.
pub fn upgrade_artwork(url: &str) -> (r: String)
    ensures
        r@ == replaced(url@, small_size(), large_size()),
{
    let v = chars_of(url);
    let small: Vec<char> = vec!['1', '0', '0', 'x', '1', '0', '0', 'b', 'b'];
    let large: Vec<char> = vec!['1', '0', '0', '0', 'x', '1', '0', '0', '0', 'b', 'b'];
    assert(small@ =~= small_size());
    assert(large@ =~= large_size());
    let out = replace_all(v.as_slice(), small.as_slice(), large.as_slice());
    string_from(out.as_slice())
}

/// The year of an ISO 8601 date.
pub fn parse_year(date: &str) -> (r: Option<u32>)
    ensures
        r == leading_year(date@),
{
    crate::identify::deezer::parse_year(date)
}

/// A song of a search response, as the service describes it.
#[derive(Debug, Clone)]
pub struct SongResult {
    pub track_name: Option<String>,
    pub artist_name: Option<String>,
    pub collection_name: Option<String>,
    pub release_date: Option<String>,
    pub track_time_millis: Option<i64>,
    pub artwork_url100: Option<String>,
}

impl Candidate {
    /// The record an iTunes song gives: the large cover for the record, the
    /// small one for the choice; a song without a name keeps an empty title.
    pub fn from_itunes(result: SongResult) -> (r: Candidate)
        ensures
            r.source@ == "iTunes"@,
            r.title@ == (match result.track_name {
                Some(t) => t@,
                None => Seq::empty(),
            }),
            opt_view(r.artist) == opt_view(result.artist_name),
            opt_view(r.album) == opt_view(result.collection_name),
            r.year == (match result.release_date {
                Some(d) => leading_year(d@),
                None => None,
            }),
            r.duration_ms == (match result.track_time_millis {
                Some(ms) => ms,
                None => 0,
            }),
            opt_view(r.cover_url) == (match result.artwork_url100 {
                Some(u) => Some(replaced(u@, small_size(), large_size())),
                None => None,
            }),
            opt_view(r.preview_url) == opt_view(result.artwork_url100),
            r.album_ref is None,
            r.score_key == ZERO_SCORE_KEY,
    {
        let year = match &result.release_date {
            Some(d) => parse_year(d.as_str()),
            None => None,
        };
        let cover_url = match &result.artwork_url100 {
            Some(u) => Some(upgrade_artwork(u.as_str())),
            None => None,
        };
        let title = match result.track_name {
            Some(t) => t,
            None => String::new(),
        };
        let mut r = Candidate::new("iTunes", title);
        r.artist = result.artist_name;
        r.album = result.collection_name;
        r.year = year;
        r.duration_ms = match result.track_time_millis {
            Some(ms) => ms,
            None => 0,
        };
        r.cover_url = cover_url;
        r.preview_url = result.artwork_url100;
        r
    }
}

/// Where the catalogue is searched.
pub const SEARCH_ENDPOINT: &'static str = "https://itunes.apple.com/search";

/// The search request for a text: eight songs.
pub fn search_url(term: &str) -> (r: String)
    ensures
        r@ == SEARCH_ENDPOINT@ + "?term="@ + url_encoded(term@) + "&entity=song&limit=8"@,
{
    let mut out = chars_of(SEARCH_ENDPOINT);
    push_str(&mut out, "?term=");
    push_str(&mut out, crate::identify::deezer::encode(term).as_str());
    push_str(&mut out, "&entity=song&limit=8");
    string_from(out.as_slice())
}

} // verus!
