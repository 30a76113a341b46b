//! Cover Art Archive: which covers to ask for, and checking that what came
//! back is an image.
use vstd::prelude::*;

use crate::library::metadata::{opt_str, views};
use crate::text::{chars_of, push_str, string_from};

verus! {

/// The Cover Art Archive is a free service: one request per second, in
/// milliseconds.
pub const MIN_INTERVAL: u64 = 1_000;

/// `bytes` starts with `prefix`.
pub open spec fn starts(bytes: Seq<u8>, prefix: Seq<u8>) -> bool {
    prefix.len() <= bytes.len() && bytes.take(prefix.len() as int) == prefix
}

/// The signatures of the usual image formats: JPEG, PNG, GIF, and WebP
/// (« RIFF » … « WEBP »).
pub open spec fn image_signature(bytes: Seq<u8>) -> bool {
    ||| starts(bytes, seq![0xFFu8, 0xD8u8, 0xFFu8])
    ||| starts(bytes, seq![0x89u8, 0x50u8, 0x4Eu8, 0x47u8])
    ||| starts(bytes, seq![0x47u8, 0x49u8, 0x46u8, 0x38u8])
    ||| (bytes.len() > 12 && starts(bytes, seq![0x52u8, 0x49u8, 0x46u8, 0x46u8])
        && bytes.subrange(8, 12) == seq![0x57u8, 0x45u8, 0x42u8, 0x50u8])
}

/// Does the answer look like an image? The service may return an error page
/// with a 200 status.
pub fn looks_like_image(bytes: &[u8]) -> (r: bool)
    ensures
        r == image_signature(bytes@),
{
    let n = bytes.len();
    let jpeg = n >= 3 && bytes[0] == 0xFF && bytes[1] == 0xD8 && bytes[2] == 0xFF;
    let png = n >= 4 && bytes[0] == 0x89 && bytes[1] == 0x50 && bytes[2] == 0x4E && bytes[3] == 0x47;
    let gif = n >= 4 && bytes[0] == 0x47 && bytes[1] == 0x49 && bytes[2] == 0x46 && bytes[3] == 0x38;
    let webp = n > 12 && bytes[0] == 0x52 && bytes[1] == 0x49 && bytes[2] == 0x46 && bytes[3] == 0x46
        && bytes[8] == 0x57 && bytes[9] == 0x45 && bytes[10] == 0x42 && bytes[11] == 0x50;
    proof {
        if n >= 3 {
            assert(jpeg == (bytes@.take(3) =~= seq![0xFFu8, 0xD8u8, 0xFFu8]));
        }
        if n >= 4 {
            assert(png == (bytes@.take(4) =~= seq![0x89u8, 0x50u8, 0x4Eu8, 0x47u8]));
            assert(gif == (bytes@.take(4) =~= seq![0x47u8, 0x49u8, 0x46u8, 0x38u8]));
        }
        if n > 12 {
            assert(webp == ((bytes@.take(4) =~= seq![0x52u8, 0x49u8, 0x46u8, 0x46u8])
                && (bytes@.subrange(8, 12) =~= seq![0x57u8, 0x45u8, 0x42u8, 0x50u8])));
        }
    }
    jpeg || png || gif || webp
}

/// The service's address.
pub const ENDPOINT: &'static str = "https://coverartarchive.org";

/// The front covers to ask for, in order: the precise release's first, then
/// the album's reference one; an empty or missing identifier asks for nothing.
pub open spec fn front_requests(release: Option<Seq<char>>, group: Option<Seq<char>>) -> Seq<
    Seq<char>,
> {
    (if release matches Some(r) && r.len() > 0 {
        seq![ENDPOINT@ + "/release/"@ + release->0 + "/front"@]
    } else {
        Seq::empty()
    }) + (if group matches Some(g) && g.len() > 0 {
        seq![ENDPOINT@ + "/release-group/"@ + group->0 + "/front"@]
    } else {
        Seq::empty()
    })
}

fn front_url(kind: &str, mbid: &str) -> (r: String)
    ensures
        r@ == ENDPOINT@ + kind@ + mbid@ + "/front"@,
{
    let mut out = chars_of(ENDPOINT);
    push_str(&mut out, kind);
    push_str(&mut out, mbid);
    push_str(&mut out, "/front");
    string_from(out.as_slice())
}

/// The addresses of the front covers to try, in order (see
/// [`front_requests`]); the first answer that [`looks_like_image`] is kept, and
/// a missing cover is a normal outcome.
pub fn front_urls(release_mbid: Option<&str>, release_group_mbid: Option<&str>) -> (r: Vec<String>)
    ensures
        views(r@) == front_requests(opt_str(release_mbid), opt_str(release_group_mbid)),
{
    let mut out: Vec<String> = Vec::new();
    if let Some(mbid) = release_mbid {
        if chars_of(mbid).len() > 0 {
            let u = front_url("/release/", mbid);
            out.push(u);
        }
    }
    let ghost first = views(out@);
    if let Some(mbid) = release_group_mbid {
        if chars_of(mbid).len() > 0 {
            let u = front_url("/release-group/", mbid);
            out.push(u);
            assert(views(out@) =~= first.push(u@));
        }
    }
    assert(views(out@) =~= front_requests(opt_str(release_mbid), opt_str(release_group_mbid)));
    out
}

} // verus!
