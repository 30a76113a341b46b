//! Cover images: the thumbnails kept on the internal disk, named after the
//! fingerprint of the original image so that the twelve tracks of an album
//! share one file; the resizing shared with the covers written next to the
//! albums; and base64, the form in which images cross the IPC boundary
//! (standard alphabet, with padding) and fingerprints travel in a query string
//! (URL alphabet, without padding).
//!
//! Writing the thumbnail to disk belongs to the application.
use vstd::prelude::*;

use crate::ingest::token::all_lower_hex;
use crate::library::hash::{blake3_hex, blake3_of};
use crate::text::string_from;
use image::DynamicImage;

verus! {

/// The character of a six-bit value in the base64 alphabet; the URL variant
/// uses `-` and `_` where the standard one uses `+` and `/`.
pub open spec fn b64_char(i: nat, url: bool) -> char {
    if i < 26 {
        ((i + 65) as u32) as char
    } else if i < 52 {
        ((i + 71) as u32) as char
    } else if i < 62 {
        ((i - 4) as u32) as char
    } else if i == 62 {
        if url { '-' } else { '+' }
    } else {
        if url { '_' } else { '/' }
    }
}

/// The 24-bit group of up to three bytes (missing bytes count as zero).
pub open spec fn group(chunk: Seq<u8>) -> nat {
    let b0 = chunk[0] as nat;
    let b1 = if chunk.len() > 1 { chunk[1] as nat } else { 0 };
    let b2 = if chunk.len() > 2 { chunk[2] as nat } else { 0 };
    b0 * 65536 + b1 * 256 + b2
}

/// The characters of one chunk of one to three bytes: two, three or four
/// characters carry information; the standard variant pads to four with `=`.
pub open spec fn b64_chunk(chunk: Seq<u8>, url: bool) -> Seq<char> {
    let t = group(chunk);
    let head = seq![b64_char(t / 262144, url), b64_char((t / 4096) % 64, url)];
    let third = if chunk.len() > 1 {
        seq![b64_char((t / 64) % 64, url)]
    } else if url {
        seq![]
    } else {
        seq!['=']
    };
    let fourth = if chunk.len() > 2 {
        seq![b64_char(t % 64, url)]
    } else if url {
        seq![]
    } else {
        seq!['=']
    };
    head + third + fourth
}

/// The base64 encoding of bytes, three at a time.
pub open spec fn base64(bytes: Seq<u8>, url: bool) -> Seq<char>
    decreases bytes.len(),
{
    if bytes.len() == 0 {
        seq![]
    } else if bytes.len() <= 3 {
        b64_chunk(bytes, url)
    } else {
        b64_chunk(bytes.take(3), url) + base64(bytes.skip(3), url)
    }
}

/// The character of a six-bit value.
fn alphabet(i: u32, url: bool) -> (c: char)
    requires
        i < 64,
    ensures
        c == b64_char(i as nat, url),
{
    if i < 26 {
        ((i + 65) as u8) as char
    } else if i < 52 {
        ((i + 71) as u8) as char
    } else if i < 62 {
        ((i - 4) as u8) as char
    } else if i == 62 {
        if url { '-' } else { '+' }
    } else {
        if url { '_' } else { '/' }
    }
}

/// Base64 of bytes, in either alphabet.
pub fn base64_encode(input: &[u8], url: bool) -> (r: String)
    ensures
        r@ == base64(input@, url),
{
    let mut out: Vec<char> = Vec::new();
    let mut i: usize = 0;
    let n = input.len();
    assert(input@.skip(0) =~= input@);
    while i < n
        invariant
            n == input@.len(),
            i <= n,
            out@ + base64(input@.skip(i as int), url) == base64(input@, url),
        decreases n - i,
    {
        let rest_len = n - i;
        let b0 = input[i] as u32;
        let b1: u32 = if rest_len > 1 { input[i + 1] as u32 } else { 0 };
        let b2: u32 = if rest_len > 2 { input[i + 2] as u32 } else { 0 };
        let t = b0 * 65536 + b1 * 256 + b2;
        let ghost rest = input@.skip(i as int);
        let ghost chunk = if rest.len() <= 3 { rest } else { rest.take(3) };
        proof {
            assert(chunk[0] == input@[i as int]);
            if rest_len > 1 {
                assert(chunk[1] == input@[i + 1]);
            }
            if rest_len > 2 {
                assert(chunk[2] == input@[i + 2]);
            }
            assert(t == group(chunk));
        }
        let ghost before = out@;
        out.push(alphabet(t / 262144, url));
        out.push(alphabet((t / 4096) % 64, url));
        if rest_len > 1 {
            out.push(alphabet((t / 64) % 64, url));
        } else if !url {
            out.push('=');
        }
        if rest_len > 2 {
            out.push(alphabet(t % 64, url));
        } else if !url {
            out.push('=');
        }
        assert(out@ =~= before + b64_chunk(chunk, url));
        if rest_len <= 3 {
            assert(base64(rest, url) == b64_chunk(rest, url));
            assert(input@.skip(n as int).len() == 0);
            assert(out@ + base64(input@.skip(n as int), url) =~= out@);
            i = n;
        } else {
            assert(rest.skip(3) =~= input@.skip(i + 3));
            assert(before + b64_chunk(chunk, url) + base64(input@.skip(i + 3), url) =~= before + (
            b64_chunk(chunk, url) + base64(rest.skip(3), url)));
            i = i + 3;
        }
    }
    assert(input@.skip(i as int).len() == 0);
    assert(out@ + Seq::<char>::empty() =~= out@);
    string_from(out.as_slice())
}

/// Standard base64, with padding.
///
/// Shared by everything that must carry an image across the IPC boundary: two
/// implementations of the same encoding would end up diverging.
pub fn encode_base64(input: &[u8]) -> (r: String)
    ensures
        r@ == base64(input@, false),
{
    base64_encode(input, false)
}

/// Longest side of a thumbnail: 512 px is enough for a large cover in the
/// interface, Retina screens included.
pub const THUMBNAIL_SIZE: u32 = 512;

/// JPEG quality of a thumbnail: at 82 the artefacts are invisible on a cover
/// and the file weighs about 40 KB.
pub const JPEG_QUALITY: u8 = 82;

/// A decoded image, carried through opaque.
#[verifier::external_type_specification]
#[verifier::external_body]
pub struct ExDynamicImage(image::DynamicImage);

/// A decoded image with its dimensions. Only the wrappers of this module make
/// one, each reading the dimensions from the image it holds
/// (`DynamicImage::width` and `height`).
pub struct Decoded {
    image: DynamicImage,
    width: u32,
    height: u32,
}

/// The dimensions of the image that some bytes decode to, `None` when they
/// are not an image of a supported format (JPEG, PNG).
pub uninterp spec fn decoded_dims(bytes: Seq<u8>) -> Option<(u32, u32)>;

/// The allocation `image` allows by default when it decodes (`Limits::default`,
/// `max_alloc`): an image needing more bytes is refused.
pub const DECODE_LIMIT: u64 = 512 * 1024 * 1024;

/// Largest side the JPEG encoder writes: its frame header holds 16-bit sides.
pub const JPEG_MAX_SIDE: u32 = 65_535;

/// `image::load_from_memory`: decodes bytes whose format it guesses from their
/// first bytes, with the image's `width()` and `height()`. The result is a
/// function of the bytes alone; what the pixels are is not stated.
#[verifier::external_body]
fn decode_image(bytes: &[u8]) -> (r: Option<Decoded>)
    ensures
        match r {
            Some(d) => decoded_dims(bytes@) == Some((d.width, d.height)),
            None => decoded_dims(bytes@) is None,
        },
{
    match image::load_from_memory(bytes) {
        Ok(image) => {
            let width = image.width();
            let height = image.height();
            Some(Decoded { image, width, height })
        },
        Err(_) => None,
    }
}

/// `DynamicImage::resize` with the Lanczos3 filter, then the result's `width()`
/// and `height()`. For an image with no empty side that does not fit in a
/// `side` × `side` square, `resize` computes its new sides with
/// `resize_dimensions` (ratio `min(side / width, side / height)`, below 1, each
/// side rounded and at least 1): each new side is at least 1, at most the old
/// one, and at most `side` (1 when `side` is 0). Nothing is stated of the pixels,
/// nor of an image with an empty side or that fits already.
#[verifier::external_body]
fn fit_within(image: &Decoded, side: u32) -> (r: Decoded)
    ensures
        image.width >= 1 && image.height >= 1 && (image.width > side || image.height > side) ==> {
            &&& 1 <= r.width <= image.width
            &&& 1 <= r.height <= image.height
            &&& r.width <= side_bound(side)
            &&& r.height <= side_bound(side)
        },
{
    let resized = image.image.resize(side, side, image::imageops::FilterType::Lanczos3);
    let width = resized.width();
    let height = resized.height();
    Decoded { image: resized, width, height }
}

/// `JpegEncoder::new_with_quality(..).encode_image(..)` on the image flattened
/// to RGB (`to_rgb8`, JPEG having no alpha channel; the sides are kept). The
/// encoder refuses a side outside `1..=65535` and fails on nothing else when it
/// writes into memory; it writes the sides into the frame header, which the
/// decoder of `load_from_memory` reads back — for an RGB image of at most
/// `DECODE_LIMIT` bytes, the default allocation. It writes into an empty
/// buffer, the start-of-image marker `FF D8` first. Nothing is stated of the
/// pixels.
#[verifier::external_body]
fn encode_jpeg(image: &Decoded, quality: u8) -> (r: Option<Vec<u8>>)
    ensures
        r is Some <==> (1 <= image.width <= JPEG_MAX_SIDE && 1 <= image.height <= JPEG_MAX_SIDE),
        (image.width as int) * (image.height as int) * 3 <= DECODE_LIMIT ==> (r matches Some(out)
            ==> decoded_dims(out@) == Some((image.width, image.height))),
        r matches Some(out) ==> starts_jpeg(out@),
{
    let rgb = image.image.to_rgb8();
    let mut output = Vec::new();
    match image::codecs::jpeg::JpegEncoder::new_with_quality(&mut output, quality).encode_image(&rgb) {
        Ok(()) => Some(output),
        Err(_) => None,
    }
}

/// Why a cover could not be turned into a JPEG.
#[derive(Debug, Clone, Copy, PartialEq, Eq, Structural)]
pub enum ArtworkError {
    /// The bytes are not a readable image.
    Unreadable,
    /// The JPEG encoder failed.
    Unencodable,
}

impl ArtworkError {
    /// The message shown for the error.
    pub fn message(&self) -> (r: &'static str)
        ensures
            *self == ArtworkError::Unreadable ==> r@ == "pochette illisible"@,
            *self == ArtworkError::Unencodable ==> r@ == "encodage de la pochette"@,
    {
        match self {
            ArtworkError::Unreadable => "pochette illisible",
            ArtworkError::Unencodable => "encodage de la pochette",
        }
    }
}

/// Bytes that begin as a JPEG does: the start-of-image marker `FF D8`.
pub open spec fn starts_jpeg(bytes: Seq<u8>) -> bool {
    bytes.len() >= 2 && bytes[0] == 0xFF && bytes[1] == 0xD8
}

/// The largest side a fitted image may have: `side`, or 1 for a side of 0.
pub open spec fn side_bound(side: u32) -> int {
    if side == 0 {
        1
    } else {
        side as int
    }
}

/// A re-encoding as plain values.
pub open spec fn jpeg_view(r: Result<Vec<u8>, ArtworkError>) -> Result<Seq<u8>, ArtworkError> {
    match r {
        Ok(v) => Ok(v@),
        Err(e) => Err(e),
    }
}

/// What re-encoding `bytes` as a JPEG at most `max_side` on a side gives:
/// - unreadable bytes give `Unreadable`, and only they;
/// - an image that fits is encoded as it is (never enlarged): it succeeds
///   exactly when its sides lie in `1..=65535`, and the JPEG has its sides;
/// - a larger image with no empty side is scaled down: it succeeds when
///   `max_side` is at most 65535, and the JPEG's sides lie between 1 and the old
///   ones and at most `max_side`;
/// - the sides of the JPEG are those it decodes to, when decoding it needs no
///   more than `DECODE_LIMIT` bytes;
/// - whatever the image, what comes out is a new JPEG: it starts with the
///   start-of-image marker (a PNG cover is never passed through as it is).
pub open spec fn jpeg_of(bytes: Seq<u8>, max_side: u32, r: Result<Seq<u8>, ArtworkError>) -> bool {
    match decoded_dims(bytes) {
        None => r == Err::<Seq<u8>, ArtworkError>(ArtworkError::Unreadable),
        Some((w, h)) => {
            let fits = w <= max_side && h <= max_side;
            let s = side_bound(max_side);
            &&& r != Err::<Seq<u8>, ArtworkError>(ArtworkError::Unreadable)
            &&& r is Ok ==> starts_jpeg(r->Ok_0)
            &&& fits ==> (r is Ok <==> (1 <= w <= JPEG_MAX_SIDE && 1 <= h <= JPEG_MAX_SIDE))
            &&& (!fits && w >= 1 && h >= 1 && max_side <= JPEG_MAX_SIDE) ==> r is Ok
            &&& (fits && r is Ok && (w as int) * (h as int) * 3 <= DECODE_LIMIT) ==> decoded_dims(
                r->Ok_0,
            ) == Some((w, h))
            &&& (!fits && w >= 1 && h >= 1 && r is Ok && s * s * 3 <= DECODE_LIMIT) ==> (decoded_dims(
                r->Ok_0,
            ) matches Some((w2, h2)) && 1 <= w2 <= w && w2 <= s && 1 <= h2 <= h && h2 <= s)
        },
    }
}

/// Re-encodes an image as JPEG at `quality`, scaled down to fit in a
/// `max_side` square when it is larger, never enlarged (see [`jpeg_of`]).
pub fn resize_jpeg(bytes: &[u8], max_side: u32, quality: u8) -> (r: Result<Vec<u8>, ArtworkError>)
    ensures
        jpeg_of(bytes@, max_side, jpeg_view(r)),
{
    let decoded = match decode_image(bytes) {
        Some(d) => d,
        None => return Err(ArtworkError::Unreadable),
    };
    let fits = decoded.width <= max_side && decoded.height <= max_side;
    let encoded = if fits {
        encode_jpeg(&decoded, quality)
    } else {
        let resized = fit_within(&decoded, max_side);
        let e = encode_jpeg(&resized, quality);
        proof {
            let s = side_bound(max_side);
            if decoded.width >= 1 && decoded.height >= 1 && s * s * 3 <= DECODE_LIMIT {
                assert((resized.width as int) * (resized.height as int) <= s * s) by (nonlinear_arith)
                    requires
                        1 <= resized.width <= s,
                        1 <= resized.height <= s,
                ;
            }
        }
        e
    };
    match encoded {
        Some(out) => Ok(out),
        None => Err(ArtworkError::Unencodable),
    }
}

/// A thumbnail to store: its name, the fingerprint of the original image (the
/// same for every track of an album), and its JPEG bytes.
pub struct Thumbnail {
    pub digest: String,
    pub jpeg: Vec<u8>,
}

/// The name under which the thumbnail of an image is stored: the fingerprint
/// of the image's bytes.
pub fn thumbnail_digest(image_data: &[u8]) -> (r: String)
    ensures
        r@ == blake3_hex(image_data@),
        r@.len() == 64,
        all_lower_hex(r@),
{
    blake3_of(image_data)
}

/// The file name of a stored thumbnail: its fingerprint, as JPEG.
pub fn thumbnail_name(digest: &str) -> (r: String)
    ensures
        r@ == digest@ + ".jpg"@,
{
    let mut out = crate::text::chars_of(digest);
    crate::text::push_str(&mut out, ".jpg");
    crate::text::string_from(out.as_slice())
}

/// The thumbnail of a cover: at most `THUMBNAIL_SIZE` on a side, JPEG at
/// `JPEG_QUALITY`, named after the cover's fingerprint.
pub fn thumbnail(image_data: &[u8]) -> (r: Result<Thumbnail, ArtworkError>)
    ensures
        match r {
            Ok(t) => t.digest@ == blake3_hex(image_data@) && jpeg_of(
                image_data@,
                THUMBNAIL_SIZE,
                Ok(t.jpeg@),
            ),
            Err(e) => jpeg_of(image_data@, THUMBNAIL_SIZE, Err(e)),
        },
{
    let digest = thumbnail_digest(image_data);
    match resize_jpeg(image_data, THUMBNAIL_SIZE, JPEG_QUALITY) {
        Ok(jpeg) => Ok(Thumbnail { digest, jpeg }),
        Err(e) => Err(e),
    }
}

} // verus!
