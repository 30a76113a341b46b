//! Content fingerprints of audio files.
//!
//! Used to detect duplicates at import, and to recognise a file the user moved
//! or renamed by hand. Hashing a whole library at every scan would read tens of
//! gigabytes, so a span longer than 4 MiB is sampled: its first and its last
//! 2 MiB, with its length in front so that two spans sharing both ends still
//! differ by size.
//!
//! Reading the bytes belongs to the application: the library says which bytes
//! to read and digests what was read.
use vstd::prelude::*;

use crate::ingest::token::all_lower_hex;

verus! {

/// Up to this length, a span is hashed whole.
pub const FULL_HASH_THRESHOLD: u64 = 4 * 1024 * 1024;

/// Length of the windows read at both ends of a longer span.
pub const WINDOW: u64 = 2 * 1024 * 1024;

/// The BLAKE3 digest of some bytes, written in lowercase hexadecimal.
pub uninterp spec fn blake3_hex(input: Seq<u8>) -> Seq<char>;

/// `blake3::hash(input).to_hex()`: the BLAKE3 digest of the bytes, 32 bytes
/// written as 64 lowercase hexadecimal digits. Which digits is left to the
/// name: the algorithm is BLAKE3's.
#[verifier::external_body]
pub(crate) fn blake3_of(input: &[u8]) -> (r: String)
    ensures
        r@ == blake3_hex(input@),
        r@.len() == 64,
        all_lower_hex(r@),
{
    blake3::hash(input).to_hex().to_string()
}

/// The `k` lowest bytes of `n`, least significant first.
pub open spec fn le_bytes(n: nat, k: nat) -> Seq<u8>
    decreases k,
{
    if k == 0 {
        seq![]
    } else {
        seq![(n % 256) as u8] + le_bytes(n / 256, (k - 1) as nat)
    }
}

/// `n.to_le_bytes()`: the eight bytes of `n`, least significant first.
pub fn le_bytes_of(n: u64) -> (r: Vec<u8>)
    ensures
        r@ == le_bytes(n as nat, 8),
{
    let mut v: Vec<u8> = Vec::new();
    let mut x: u64 = n;
    let mut i: u64 = 0;
    while i < 8
        invariant
            i <= 8,
            v@ + le_bytes(x as nat, (8 - i) as nat) == le_bytes(n as nat, 8),
        decreases 8 - i,
    {
        let ghost before = v@;
        assert(le_bytes(x as nat, (8 - i) as nat) == seq![(x as nat % 256) as u8] + le_bytes(
            x as nat / 256,
            (8 - i - 1) as nat,
        ));
        v.push((x % 256) as u8);
        assert(v@ + le_bytes(x as nat / 256, (8 - i - 1) as nat) =~= before + le_bytes(
            x as nat,
            (8 - i) as nat,
        ));
        x = x / 256;
        i = i + 1;
    }
    assert(v@ + le_bytes(x as nat, 0) =~= v@);
    v
}

/// The windows read of the span `[start, end)`, as offset and length: the whole
/// span up to the threshold, else its first and its last `WINDOW` bytes.
pub open spec fn windows(start: u64, end: u64) -> Seq<(u64, u64)> {
    if end - start <= FULL_HASH_THRESHOLD {
        seq![(start, (end - start) as u64)]
    } else {
        seq![(start, WINDOW), ((end - WINDOW) as u64, WINDOW)]
    }
}

/// Which bytes of the span `[start, end)` its fingerprint reads.
pub fn sample_windows(start: u64, end: u64) -> (r: Vec<(u64, u64)>)
    requires
        start <= end,
    ensures
        r@ == windows(start, end),
        forall|i: int| 0 <= i < r@.len() ==> start <= (#[trigger] r@[i]).0 && r@[i].0 + r@[i].1 <= end,
{
    let mut v: Vec<(u64, u64)> = Vec::new();
    if end - start <= FULL_HASH_THRESHOLD {
        v.push((start, end - start));
    } else {
        v.push((start, WINDOW));
        v.push((end - WINDOW, WINDOW));
    }
    assert(v@ =~= windows(start, end));
    v
}

/// The bytes of several pieces, one after the other.
pub open spec fn flatten(pieces: Seq<Seq<u8>>) -> Seq<u8>
    decreases pieces.len(),
{
    if pieces.len() == 0 {
        seq![]
    } else {
        flatten(pieces.drop_last()) + pieces.last()
    }
}

/// The pieces as byte sequences.
pub open spec fn byte_views(pieces: Seq<Vec<u8>>) -> Seq<Seq<u8>> {
    pieces.map_values(|p: Vec<u8>| p@)
}

/// What the fingerprint of a span of `len` bytes hashes, given the bytes of its
/// windows: the length in little-endian, then the windows in order.
pub open spec fn digest_input(len: u64, pieces: Seq<Seq<u8>>) -> Seq<u8> {
    le_bytes(len as nat, 8) + flatten(pieces)
}

/// The fingerprint of a span of `len` bytes whose windows, read in the order
/// `sample_windows` gives, hold `pieces`.
pub fn span_digest(len: u64, pieces: &[Vec<u8>]) -> (r: String)
    ensures
        r@ == blake3_hex(digest_input(len, byte_views(pieces@))),
        r@.len() == 64,
        all_lower_hex(r@),
{
    let mut input = le_bytes_of(len);
    let mut i: usize = 0;
    assert(byte_views(pieces@).take(0) =~= Seq::<Seq<u8>>::empty());
    while i < pieces.len()
        invariant
            i <= pieces@.len(),
            input@ == le_bytes(len as nat, 8) + flatten(byte_views(pieces@).take(i as int)),
        decreases pieces@.len() - i,
    {
        let ghost before = input@;
        input.extend_from_slice(pieces[i].as_slice());
        assert(byte_views(pieces@).take(i + 1).drop_last() =~= byte_views(pieces@).take(i as int));
        assert(input@ =~= before + pieces@[i as int]@);
        assert(input@ =~= le_bytes(len as nat, 8) + flatten(byte_views(pieces@).take(i + 1)));
        i = i + 1;
    }
    assert(byte_views(pieces@).take(i as int) =~= byte_views(pieces@));
    blake3_of(input.as_slice())
}

/// The bytes the windows of some data cover, in order.
pub open spec fn window_bytes(data: Seq<u8>, ws: Seq<(u64, u64)>) -> Seq<Seq<u8>> {
    ws.map_values(|w: (u64, u64)| data.subrange(w.0 as int, w.0 + w.1))
}

/// A copy of `data[from..to]`.
fn byte_range_of(data: &[u8], from: usize, to: usize) -> (r: Vec<u8>)
    requires
        from <= to <= data@.len(),
    ensures
        r@ == data@.subrange(from as int, to as int),
{
    let mut out: Vec<u8> = Vec::new();
    let mut i = from;
    while i < to
        invariant
            from <= i <= to <= data@.len(),
            out@ == data@.subrange(from as int, i as int),
        decreases to - i,
    {
        out.push(data[i]);
        assert(out@ =~= data@.subrange(from as int, i + 1));
        i = i + 1;
    }
    out
}

/// The content fingerprint of some bytes held in memory: their length, then
/// the windows `sample_windows` picks over all of them — what the fingerprint
/// of a file of these bytes is.
pub fn content_digest(data: &[u8]) -> (r: String)
    requires
        data@.len() <= u64::MAX,
    ensures
        r@ == blake3_hex(
            digest_input(data@.len() as u64, window_bytes(data@, windows(0, data@.len() as u64))),
        ),
{
    let n: usize = data.len();
    let len = n as u64;
    let ws = sample_windows(0, len);
    let mut pieces: Vec<Vec<u8>> = Vec::new();
    let mut i: usize = 0;
    while i < ws.len()
        invariant
            i <= ws@.len(),
            len == data@.len(),
            n == data@.len(),
            ws@ == windows(0, len),
            forall|k: int| 0 <= k < ws@.len() ==> (#[trigger] ws@[k]).0 + ws@[k].1 <= len,
            byte_views(pieces@) == window_bytes(data@, ws@).take(i as int),
        decreases ws@.len() - i,
    {
        let w = ws[i];
        let from = w.0;
        let count = w.1;
        assert(from + count <= len) by {
            assert(ws@[i as int] == w);
        }
        let start: usize = from as usize;
        let stop: usize = (from + count) as usize;
        assert(start == from && stop == from + count);
        let piece = byte_range_of(data, start, stop);
        let ghost before = pieces@;
        pieces.push(piece);
        assert(byte_views(pieces@) =~= byte_views(before).push(piece@));
        assert(window_bytes(data@, ws@).take(i + 1) =~= window_bytes(data@, ws@).take(i as int).push(
            data@.subrange(from as int, from + count),
        ));
        i = i + 1;
    }
    assert(window_bytes(data@, ws@).take(i as int) =~= window_bytes(data@, ws@));
    span_digest(len, pieces.as_slice())
}

/// `256^k`.
pub open spec fn byte_range(k: nat) -> nat
    decreases k,
{
    if k == 0 {
        1
    } else {
        256 * byte_range((k - 1) as nat)
    }
}

/// The `k` lowest bytes tell apart two numbers below `256^k`.
proof fn lemma_le_bytes_injective(a: nat, b: nat, k: nat)
    requires
        a < byte_range(k),
        b < byte_range(k),
        le_bytes(a, k) == le_bytes(b, k),
    ensures
        a == b,
    decreases k,
{
    if k > 0 {
        let ka = le_bytes(a, k);
        let kb = le_bytes(b, k);
        assert(ka[0] == kb[0]);
        assert(ka.drop_first() =~= le_bytes(a / 256, (k - 1) as nat));
        assert(kb.drop_first() =~= le_bytes(b / 256, (k - 1) as nat));
        assert(a / 256 < byte_range((k - 1) as nat)) by (nonlinear_arith)
            requires
                a < 256 * byte_range((k - 1) as nat),
        ;
        assert(b / 256 < byte_range((k - 1) as nat)) by (nonlinear_arith)
            requires
                b < 256 * byte_range((k - 1) as nat),
        ;
        lemma_le_bytes_injective(a / 256, b / 256, (k - 1) as nat);
        assert((a % 256) as u8 == (b % 256) as u8);
        assert(a % 256 == b % 256);
        assert(a == 256 * (a / 256) + a % 256) by (nonlinear_arith);
        assert(b == 256 * (b / 256) + b % 256) by (nonlinear_arith);
    } else {
        assert(a == 0 && b == 0);
    }
}

/// **The length is part of the fingerprint**: two spans of different lengths
/// are hashed from different bytes, even when their windows read the same.
pub proof fn lemma_length_is_hashed(len1: u64, len2: u64, pieces: Seq<Seq<u8>>)
    requires
        len1 != len2,
    ensures
        digest_input(len1, pieces) != digest_input(len2, pieces),
{
    reveal_with_fuel(byte_range, 9);
    assert(byte_range(8) == 0x1_0000_0000_0000_0000);
    if digest_input(len1, pieces) == digest_input(len2, pieces) {
        lemma_le_bytes_len(len1 as nat, 8);
        lemma_le_bytes_len(len2 as nat, 8);
        assert(le_bytes(len1 as nat, 8) =~= digest_input(len1, pieces).take(8));
        assert(le_bytes(len2 as nat, 8) =~= digest_input(len2, pieces).take(8));
        lemma_le_bytes_injective(len1 as nat, len2 as nat, 8);
    }
}

/// `le_bytes(n, k)` holds `k` bytes.
proof fn lemma_le_bytes_len(n: nat, k: nat)
    ensures
        le_bytes(n, k).len() == k,
    decreases k,
{
    if k > 0 {
        lemma_le_bytes_len(n / 256, (k - 1) as nat);
    }
}

} // verus!
