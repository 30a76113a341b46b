//! The span of the audio bytes of a file, so that retagging does not change
//! its fingerprint.
//!
//! ```text
//!   ┌────────────┬───────────────────────────────┬──────────────┐
//!   │  ID3v2     │          AUDIO                │ ID3v1 / APE  │
//!   └────────────┴───────────────────────────────┴──────────────┘
//!      skipped        ◄── only this is hashed ──►     skipped
//! ```
//!
//! MP3: ID3v2 header skipped, ID3v1 and APEv2 tails removed. FLAC: metadata
//! blocks walked to the last one. MP4: the `mdat` atom. WAV: the `data` chunk.
//! OGG: the whole file. Any anomaly falls back to the whole file.
//!
//! The application reads the bytes at the offsets these functions name; the
//! functions decide what the bytes mean and where to look next.
use vstd::prelude::*;

verus! {

/// Span of the audio bytes, in bytes from the start of the file.
#[derive(Debug, Clone, Copy, PartialEq, Eq, Structural)]
pub struct AudioRange {
    pub start: u64,
    /// Exclusive.
    pub end: u64,
}

impl AudioRange {
    pub fn len(&self) -> (r: u64)
        ensures
            r == (if self.end >= self.start { self.end - self.start } else { 0 }),
    {
        if self.end >= self.start {
            self.end - self.start
        } else {
            0
        }
    }

    pub fn is_empty(&self) -> (r: bool)
        ensures
            r == (self.end <= self.start),
    {
        self.len() == 0
    }
}

/// The length of an ID3v2 tag, header and footer included: the size is stored
/// on four « synchsafe » bytes (seven useful bits each, the eighth at zero),
/// and bit 4 of the flags announces a ten-byte footer. `None` when the header
/// is too short or the size is not synchsafe.
pub open spec fn id3v2_size(header: Seq<u8>) -> Option<u64> {
    if header.len() < 10 || header[6] >= 128 || header[7] >= 128 || header[8] >= 128 || header[9]
        >= 128 {
        None
    } else {
        let size = header[6] * 2097152 + header[7] * 16384 + header[8] * 128 + header[9];
        let footer = if (header[5] / 16) % 2 == 1 { 10int } else { 0int };
        Some((size + 10 + footer) as u64)
    }
}

/// Length of the ID3v2 tag that starts the file.
pub fn id3v2_length(header: &[u8]) -> (r: Option<u64>)
    ensures
        r == id3v2_size(header@),
{
    if header.len() < 10 {
        return None;
    }
    let mut size: u64 = 0;
    let mut i: usize = 6;
    while i < 10
        invariant
            6 <= i <= 10,
            header@.len() >= 10,
            forall|j: int| 6 <= j < i ==> header@[j] < 128,
            size == (if i == 6 {
                0
            } else if i == 7 {
                header@[6] as int
            } else if i == 8 {
                header@[6] * 128 + header@[7]
            } else if i == 9 {
                header@[6] * 16384 + header@[7] * 128 + header@[8]
            } else {
                header@[6] * 2097152 + header@[7] * 16384 + header@[8] * 128 + header@[9]
            }),
        decreases 10 - i,
    {
        let b = header[i];
        if b >= 128 {
            return None;
        }
        size = size * 128 + b as u64;
        i = i + 1;
    }
    let footer: u64 = if (header[5] / 16) % 2 == 1 {
        10
    } else {
        0
    };
    Some(size + 10 + footer)
}

// ── Containers ─────────────────────────────────────────────────────────────

/// Where the container starts: after the ID3v2 tag that may precede any
/// container (FLAC included), given the first twelve bytes of the file.
pub open spec fn after_id3(magic: Seq<u8>) -> u64 {
    if magic.len() >= 3 && magic[0] == 0x49 && magic[1] == 0x44 && magic[2] == 0x33 {
        match id3v2_size(magic) {
            Some(n) => n,
            None => 0,
        }
    } else {
        0
    }
}

/// Where the container starts.
pub fn id3_skip(magic: &[u8]) -> (r: u64)
    ensures
        r == after_id3(magic@),
{
    if magic.len() >= 3 && magic[0] == 0x49 && magic[1] == 0x44 && magic[2] == 0x33 {
        match id3v2_length(magic) {
            Some(n) => n,
            None => 0,
        }
    } else {
        0
    }
}

/// The kinds of container told apart.
#[derive(Debug, Clone, Copy, PartialEq, Eq, Structural)]
pub enum Container {
    /// `fLaC`.
    Flac,
    /// `RIFF` … `WAVE`.
    Wave,
    /// An MP4 atom: `ftyp`, `moov`, `mdat` or `free`.
    Mp4,
    /// `OggS`: the Vorbis comments live inside the paging, the whole file is
    /// hashed.
    Ogg,
    /// MP3, or an unknown format.
    Plain,
}

/// Four bytes of `s` from `at` are `tag`.
pub open spec fn tag_at(s: Seq<u8>, at: int, tag: Seq<u8>) -> bool {
    at + 4 <= s.len() && s.subrange(at, at + 4) == tag
}

/// The container, from the (up to twelve) bytes read where it starts.
pub open spec fn container_of(bytes: Seq<u8>) -> Container {
    if tag_at(bytes, 0, seq![0x66u8, 0x4Cu8, 0x61u8, 0x43u8]) {
        Container::Flac
    } else if bytes.len() >= 12 && tag_at(bytes, 0, seq![0x52u8, 0x49u8, 0x46u8, 0x46u8]) && tag_at(
        bytes,
        8,
        seq![0x57u8, 0x41u8, 0x56u8, 0x45u8],
    ) {
        Container::Wave
    } else if bytes.len() >= 8 && (tag_at(bytes, 4, seq![0x66u8, 0x74u8, 0x79u8, 0x70u8]) || tag_at(
        bytes,
        4,
        seq![0x6Du8, 0x6Fu8, 0x6Fu8, 0x76u8],
    ) || tag_at(bytes, 4, seq![0x6Du8, 0x64u8, 0x61u8, 0x74u8]) || tag_at(
        bytes,
        4,
        seq![0x66u8, 0x72u8, 0x65u8, 0x65u8],
    )) {
        Container::Mp4
    } else if tag_at(bytes, 0, seq![0x4Fu8, 0x67u8, 0x67u8, 0x53u8]) {
        Container::Ogg
    } else {
        Container::Plain
    }
}

/// Whether four bytes of `s` from `at` are `a b c d`.
fn is_tag_at(s: &[u8], at: usize, a: u8, b: u8, c: u8, d: u8) -> (r: bool)
    requires
        at <= 8,
    ensures
        r == tag_at(s@, at as int, seq![a, b, c, d]),
{
    if at + 4 > s.len() {
        return false;
    }
    let r = s[at] == a && s[at + 1] == b && s[at + 2] == c && s[at + 3] == d;
    proof {
        let w = s@.subrange(at as int, at + 4);
        if r {
            assert(w =~= seq![a, b, c, d]);
        } else {
            if w == seq![a, b, c, d] {
                assert(w[0] == a && w[1] == b && w[2] == c && w[3] == d);
            }
        }
    }
    r
}

/// Tells the container apart, from the bytes read where it starts.
pub fn container_kind(bytes: &[u8]) -> (r: Container)
    ensures
        r == container_of(bytes@),
{
    if is_tag_at(bytes, 0, 0x66, 0x4C, 0x61, 0x43) {
        Container::Flac
    } else if bytes.len() >= 12 && is_tag_at(bytes, 0, 0x52, 0x49, 0x46, 0x46) && is_tag_at(
        bytes,
        8,
        0x57,
        0x41,
        0x56,
        0x45,
    ) {
        Container::Wave
    } else if bytes.len() >= 8 && (is_tag_at(bytes, 4, 0x66, 0x74, 0x79, 0x70) || is_tag_at(
        bytes,
        4,
        0x6D,
        0x6F,
        0x6F,
        0x76,
    ) || is_tag_at(bytes, 4, 0x6D, 0x64, 0x61, 0x74) || is_tag_at(bytes, 4, 0x66, 0x72, 0x65, 0x65)) {
        Container::Mp4
    } else if is_tag_at(bytes, 0, 0x4F, 0x67, 0x67, 0x53) {
        Container::Ogg
    } else {
        Container::Plain
    }
}

/// How the audio span of a file is found, once its first bytes are read.
#[derive(Debug, Clone, Copy, PartialEq, Eq, Structural)]
pub enum Plan {
    /// Hash the whole file.
    Whole,
    /// Walk the FLAC metadata blocks, the first header at this offset.
    FlacBlocks(u64),
    /// Walk the chunks from this offset looking for `data` (RIFF/WAVE,
    /// little-endian).
    WaveChunks(u64),
    /// Walk the atoms from this offset looking for `mdat` (MP4, big-endian).
    Mp4Atoms(u64),
    /// MP3 or unknown: the audio starts here; remove the trailing tags.
    Trailing(u64),
}

/// The plan for a file of `size` bytes, given its first (up to twelve) bytes
/// and the (up to twelve) bytes read where its container starts, after the
/// ID3v2 tag. A file shorter than twelve bytes, or whose tag claims it all, is
/// hashed whole; so is an OGG file, whose comments hide in its paging.
pub open spec fn plan_of(magic: Seq<u8>, size: u64, container: Seq<u8>) -> Plan {
    let start = after_id3(magic);
    if magic.len() < 12 || start >= size {
        Plan::Whole
    } else {
        match container_of(container) {
            Container::Flac => Plan::FlacBlocks((start + 4) as u64),
            Container::Wave => Plan::WaveChunks((start + 12) as u64),
            Container::Mp4 => Plan::Mp4Atoms(start),
            Container::Ogg => Plan::Whole,
            Container::Plain => Plan::Trailing(start),
        }
    }
}

/// The plan for finding a file's audio span.
pub fn plan(magic: &[u8], size: u64, container: &[u8]) -> (r: Plan)
    ensures
        r == plan_of(magic@, size, container@),
{
    let start = id3_skip(magic);
    if magic.len() < 12 || start >= size {
        return Plan::Whole;
    }
    match container_kind(container) {
        Container::Flac => Plan::FlacBlocks(start + 4),
        Container::Wave => Plan::WaveChunks(start + 12),
        Container::Mp4 => Plan::Mp4Atoms(start),
        Container::Ogg => Plan::Whole,
        Container::Plain => Plan::Trailing(start),
    }
}

/// The outcome of reading one block header.
#[derive(Debug, Clone, Copy, PartialEq, Eq, Structural)]
pub enum Walk {
    /// The audio span was found.
    Found(AudioRange),
    /// Read the next header at this offset.
    Next(u64),
    /// The structure is not as expected: hash the whole file.
    Fail,
}

/// One FLAC metadata block header (four bytes read at `cursor`): the block's
/// length on three big-endian bytes, and bit 7 of the first byte marking the
/// last block. The audio starts after the last block.
pub open spec fn flac_walk(header: Seq<u8>, cursor: u64, size: u64) -> Walk {
    if header.len() < 4 {
        Walk::Fail
    } else {
        let length = header[1] * 65536 + header[2] * 256 + header[3];
        let next = cursor + 4 + length;
        if next > u64::MAX || next > size {
            Walk::Fail
        } else if header[0] >= 128 {
            Walk::Found(AudioRange { start: next as u64, end: size })
        } else {
            Walk::Next(next as u64)
        }
    }
}

/// Reads one FLAC metadata block header.
pub fn flac_block(header: &[u8], cursor: u64, size: u64) -> (r: Walk)
    ensures
        r == flac_walk(header@, cursor, size),
{
    if header.len() < 4 {
        return Walk::Fail;
    }
    let length: u64 = header[1] as u64 * 65536 + header[2] as u64 * 256 + header[3] as u64;
    let next = match cursor.checked_add(4) {
        Some(c) => match c.checked_add(length) {
            Some(n) => n,
            None => return Walk::Fail,
        },
        None => return Walk::Fail,
    };
    if next > size {
        return Walk::Fail;
    }
    if header[0] >= 128 {
        Walk::Found(AudioRange { start: next, end: size })
    } else {
        Walk::Next(next)
    }
}

/// One header of a chunked container (eight bytes read at `cursor`), looking
/// for the chunk `wanted`. RIFF/WAVE writes the name first and a little-endian
/// size that leaves the header out, chunks aligned on two bytes; MP4 writes a
/// big-endian size that counts the header, then the name.
pub open spec fn chunk_walk(
    header: Seq<u8>,
    cursor: u64,
    size: u64,
    wanted: Seq<u8>,
    little_endian: bool,
) -> Walk {
    if cursor + 8 > size || header.len() < 8 {
        Walk::Fail
    } else {
        let name = if little_endian {
            header.subrange(0, 4)
        } else {
            header.subrange(4, 8)
        };
        let raw: int = if little_endian {
            header[4] + header[5] * 256 + header[6] * 65536 + header[7] * 16777216
        } else {
            header[0] * 16777216 + header[1] * 65536 + header[2] * 256 + header[3]
        };
        if !little_endian && raw < 8 {
            Walk::Fail
        } else {
            let payload = if little_endian {
                raw
            } else {
                raw - 8
            };
            if name == wanted {
                let end = cursor + 8 + payload;
                if end > u64::MAX {
                    Walk::Fail
                } else {
                    Walk::Found(
                        AudioRange {
                            start: (cursor + 8) as u64,
                            end: if end > size {
                                size
                            } else {
                                end as u64
                            },
                        },
                    )
                }
            } else {
                let advance = 8 + payload + if little_endian && payload % 2 == 1 {
                    1int
                } else {
                    0int
                };
                if cursor + advance > u64::MAX {
                    Walk::Fail
                } else {
                    Walk::Next((cursor + advance) as u64)
                }
            }
        }
    }
}

/// Reads one header of a chunked container.
pub fn chunk_header(header: &[u8], cursor: u64, size: u64, wanted: &[u8; 4], little_endian: bool) -> (r: Walk)
    ensures
        r == chunk_walk(header@, cursor, size, wanted@, little_endian),
{
    if cursor > size || size - cursor < 8 || header.len() < 8 {
        return Walk::Fail;
    }
    let (n0, n1, n2, n3) = if little_endian {
        (header[0], header[1], header[2], header[3])
    } else {
        (header[4], header[5], header[6], header[7])
    };
    let raw: u64 = if little_endian {
        header[4] as u64 + header[5] as u64 * 256 + header[6] as u64 * 65536 + header[7] as u64
            * 16777216
    } else {
        header[0] as u64 * 16777216 + header[1] as u64 * 65536 + header[2] as u64 * 256
            + header[3] as u64
    };
    if !little_endian && raw < 8 {
        return Walk::Fail;
    }
    let payload = if little_endian {
        raw
    } else {
        raw - 8
    };
    let same = n0 == wanted[0] && n1 == wanted[1] && n2 == wanted[2] && n3 == wanted[3];
    proof {
        let name = if little_endian {
            header@.subrange(0, 4)
        } else {
            header@.subrange(4, 8)
        };
        if same {
            assert(name =~= wanted@);
        } else if name == wanted@ {
            assert(name[0] == wanted@[0] && name[1] == wanted@[1] && name[2] == wanted@[2]
                && name[3] == wanted@[3]);
        }
    }
    if same {
        let end = match cursor.checked_add(8) {
            Some(c) => match c.checked_add(payload) {
                Some(e) => e,
                None => return Walk::Fail,
            },
            None => return Walk::Fail,
        };
        Walk::Found(AudioRange { start: cursor + 8, end: if end > size { size } else { end } })
    } else {
        let pad: u64 = if little_endian && payload % 2 == 1 {
            1
        } else {
            0
        };
        let advance = 8 + payload + pad;
        match cursor.checked_add(advance) {
            Some(next) => Walk::Next(next),
            None => Walk::Fail,
        }
    }
}

// ── Trailing tags ──────────────────────────────────────────────────────────

/// Where the audio ends once an ID3v1 tail is removed: exactly 128 bytes
/// starting with `TAG`, when there is room for it above `floor`. `marker` is
/// what was read at `end − 128` (nothing when there is no room).
pub open spec fn after_id3v1(end: u64, floor: u64, marker: Seq<u8>) -> u64 {
    if end >= floor + 128 && marker.len() == 3 && marker == seq![0x54u8, 0x41u8, 0x47u8] {
        (end - 128) as u64
    } else {
        end
    }
}

/// Removes an ID3v1 tail.
pub fn strip_id3v1(end: u64, floor: u64, marker: &[u8]) -> (r: u64)
    ensures
        r == after_id3v1(end, floor, marker@),
{
    if end >= floor && end - floor >= 128 && marker.len() == 3 && marker[0] == 0x54 && marker[1]
        == 0x41 && marker[2] == 0x47 {
        assert(marker@ =~= seq![0x54u8, 0x41u8, 0x47u8]);
        end - 128
    } else {
        proof {
            if marker@.len() == 3 && marker@ == seq![0x54u8, 0x41u8, 0x47u8] {
                assert(marker@[0] == 0x54 && marker@[1] == 0x41 && marker@[2] == 0x47);
            }
        }
        end
    }
}

/// Where the audio ends once an APEv2 tail is removed: a 32-byte footer
/// starting with `APETAGEX`, whose little-endian size (bytes 12 to 15) covers
/// the tag but its optional 32-byte header (bit 31 of the flags), when there is
/// room for it above `floor`. `footer` is what was read at `end − 32`. Never
/// below `floor`.
pub open spec fn after_ape(end: u64, floor: u64, footer: Seq<u8>) -> u64 {
    let stripped = if end >= floor + 32 && footer.len() == 32 && footer.subrange(0, 8) == seq![
        0x41u8,
        0x50u8,
        0x45u8,
        0x54u8,
        0x41u8,
        0x47u8,
        0x45u8,
        0x58u8,
    ] {
        let tag_size = footer[12] + footer[13] * 256 + footer[14] * 65536 + footer[15] * 16777216;
        let total = tag_size + if footer[23] >= 128 {
            32int
        } else {
            0int
        };
        if end >= floor + total {
            end - total
        } else {
            end as int
        }
    } else {
        end as int
    };
    if stripped >= floor {
        stripped as u64
    } else {
        floor
    }
}

/// Removes an APEv2 tail; never below `floor`.
pub fn strip_ape(end: u64, floor: u64, footer: &[u8]) -> (r: u64)
    ensures
        r == after_ape(end, floor, footer@),
{
    let mut stripped = end;
    if end >= floor && end - floor >= 32 && footer.len() == 32 && footer[0] == 0x41 && footer[1]
        == 0x50 && footer[2] == 0x45 && footer[3] == 0x54 && footer[4] == 0x41 && footer[5] == 0x47
        && footer[6] == 0x45 && footer[7] == 0x58 {
        assert(footer@.subrange(0, 8) =~= seq![
            0x41u8,
            0x50u8,
            0x45u8,
            0x54u8,
            0x41u8,
            0x47u8,
            0x45u8,
            0x58u8,
        ]);
        let tag_size: u64 = footer[12] as u64 + footer[13] as u64 * 256 + footer[14] as u64 * 65536
            + footer[15] as u64 * 16777216;
        let total: u64 = tag_size + if footer[23] >= 128 {
            32
        } else {
            0
        };
        if end - floor >= total {
            stripped = end - total;
        }
    } else {
        proof {
            let h = footer@.subrange(0, 8);
            if end >= floor + 32 && footer@.len() == 32 && h == seq![
                0x41u8,
                0x50u8,
                0x45u8,
                0x54u8,
                0x41u8,
                0x47u8,
                0x45u8,
                0x58u8,
            ] {
                assert(h[0] == 0x41 && h[1] == 0x50 && h[2] == 0x45 && h[3] == 0x54 && h[4] == 0x41
                    && h[5] == 0x47 && h[6] == 0x45 && h[7] == 0x58);
            }
        }
    }
    if stripped >= floor {
        stripped
    } else {
        floor
    }
}

// ── Laws ───────────────────────────────────────────────────────────────────

/// The span found in a FLAC file or a chunked container lies inside the file.
pub proof fn lemma_found_spans_inside(
    header: Seq<u8>,
    cursor: u64,
    size: u64,
    wanted: Seq<u8>,
    little_endian: bool,
)
    ensures
        flac_walk(header, cursor, size) matches Walk::Found(r) ==> r.start <= r.end == size,
        chunk_walk(header, cursor, size, wanted, little_endian) matches Walk::Found(r) ==> r.end
            <= size && r.start <= size,
{
}

/// A walk always moves forward, so it ends.
pub proof fn lemma_walks_advance(
    header: Seq<u8>,
    cursor: u64,
    size: u64,
    wanted: Seq<u8>,
    little_endian: bool,
)
    ensures
        flac_walk(header, cursor, size) matches Walk::Next(n) ==> n > cursor,
        chunk_walk(header, cursor, size, wanted, little_endian) matches Walk::Next(n) ==> n
            > cursor,
{
}

/// Removing the tails never goes below the start of the audio nor beyond the
/// end of the file.
pub proof fn lemma_tails_stay_in_span(end: u64, floor: u64, marker: Seq<u8>, footer: Seq<u8>)
    requires
        floor <= end,
    ensures
        floor <= after_id3v1(end, floor, marker) <= end,
        floor <= after_ape(after_id3v1(end, floor, marker), floor, footer) <= after_id3v1(
            end,
            floor,
            marker,
        ),
{
}

/// What reading `n` bytes at `at` in a file gives: fewer at its end, nothing
/// beyond it.
pub open spec fn read(file: Seq<u8>, at: int, n: int) -> Seq<u8> {
    if at >= file.len() {
        seq![]
    } else if at + n <= file.len() {
        file.subrange(at, at + n)
    } else {
        file.subrange(at, file.len() as int)
    }
}

/// The audio span of an MP3 (or unknown) file as the application finds it by
/// following the plan: the start after the ID3v2 tag, the end before the ID3v1
/// and APEv2 tails. `None` for the other plans.
pub open spec fn trailing_span(file: Seq<u8>) -> Option<(u64, u64)> {
    let size = file.len() as u64;
    let magic = read(file, 0, 12);
    let skip = after_id3(magic);
    let container = if skip < size { read(file, skip as int, 12) } else { seq![] };
    match plan_of(magic, size, container) {
        Plan::Trailing(floor) => {
            let marker = if size >= floor + 128 { read(file, size - 128, 3) } else { seq![] };
            let end = after_id3v1(size, floor, marker);
            let footer = if end >= floor + 32 { read(file, end - 32, 32) } else { seq![] };
            Some((floor, after_ape(end, floor, footer)))
        },
        _ => None,
    }
}

/// An ID3v2 tag whose header announces its own length.
pub open spec fn whole_id3v2(tag: Seq<u8>) -> bool {
    &&& tag.len() >= 10
    &&& tag[0] == 0x49 && tag[1] == 0x44 && tag[2] == 0x33
    &&& id3v2_size(tag.take(10)) == Some(tag.len() as u64)
}

/// MPEG audio that neither looks like another container nor ends with an
/// ID3v1 or APEv2 tail.
pub open spec fn bare_audio(audio: Seq<u8>) -> bool {
    &&& audio.len() > 0
    &&& container_of(audio.take(if audio.len() < 12 { audio.len() as int } else { 12 })) == Container::Plain
    &&& audio.len() >= 128 ==> audio.subrange(audio.len() - 128, audio.len() - 125) != seq![0x54u8, 0x41u8, 0x47u8]
    &&& audio.len() >= 32 ==> audio.subrange(audio.len() - 32, audio.len() - 24) != seq![
        0x41u8,
        0x50u8,
        0x45u8,
        0x54u8,
        0x41u8,
        0x47u8,
        0x45u8,
        0x58u8,
    ]
}

/// The span of a file made of an ID3v2 tag and bare audio is the audio.
proof fn lemma_tagged_span(tag: Seq<u8>, audio: Seq<u8>)
    requires
        whole_id3v2(tag),
        bare_audio(audio),
        tag.len() + audio.len() >= 12,
        tag.len() + audio.len() <= u64::MAX,
    ensures
        trailing_span(tag + audio) == Some((tag.len() as u64, (tag.len() + audio.len()) as u64)),
        (tag + audio).subrange(tag.len() as int, (tag.len() + audio.len()) as int) == audio,
{
    let file = tag + audio;
    let size = file.len() as u64;
    let t = tag.len();
    let magic = read(file, 0, 12);
    assert(magic.len() == 12);
    assert(magic.take(10) =~= tag.take(10));
    assert(magic[0] == tag[0] && magic[1] == tag[1] && magic[2] == tag[2]);
    assert(id3v2_size(magic) == id3v2_size(tag.take(10)));
    assert(after_id3(magic) == t);
    let container = read(file, t as int, 12);
    assert(container =~= audio.take(if audio.len() < 12 { audio.len() as int } else { 12 }));
    assert(plan_of(magic, size, container) == Plan::Trailing(t as u64));
    if size >= t + 128 {
        assert(read(file, size - 128, 3) =~= audio.subrange(audio.len() - 128, audio.len() - 125));
    }
    let marker = if size >= t + 128 { read(file, size - 128, 3) } else { seq![] };
    assert(after_id3v1(size, t as u64, marker) == size);
    if size >= t + 32 {
        let footer = read(file, size - 32, 32);
        assert(footer =~= audio.subrange(audio.len() - 32, audio.len() as int));
        assert(footer.subrange(0, 8) =~= audio.subrange(audio.len() - 32, audio.len() - 24));
    }
    assert(file.subrange(t as int, (t + audio.len()) as int) =~= audio);
}

/// **Retagging does not change the audio fingerprint**: an MP3 whose ID3v2 tag
/// was rewritten keeps the same audio span content — the span covers exactly
/// the audio, whatever tag precedes it — so it is hashed from the same bytes.
pub proof fn lemma_retag_keeps_audio(tag1: Seq<u8>, tag2: Seq<u8>, audio: Seq<u8>)
    requires
        whole_id3v2(tag1),
        whole_id3v2(tag2),
        bare_audio(audio),
        tag1.len() + audio.len() >= 12,
        tag2.len() + audio.len() >= 12,
        tag1.len() + audio.len() <= u64::MAX,
        tag2.len() + audio.len() <= u64::MAX,
    ensures
        trailing_span(tag1 + audio) matches Some((s1, e1)) && trailing_span(tag2 + audio) matches Some((s2, e2))
            && e1 - s1 == e2 - s2 && (tag1 + audio).subrange(s1 as int, e1 as int) == (tag2 + audio).subrange(
            s2 as int,
            e2 as int,
        ),
{
    lemma_tagged_span(tag1, audio);
    lemma_tagged_span(tag2, audio);
}

} // verus!
