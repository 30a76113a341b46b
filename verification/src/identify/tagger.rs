//! Applying an identification to a file: what the identified metadata change
//! in the file's own, the covers prepared for the file and its album, and what
//! the application produced. Writing the tags, moving the file and storing the
//! cover belong to the application.
use vstd::prelude::*;

use crate::identify::musicbrainz::RecordingMetadata;
use crate::library::artwork::{jpeg_of, jpeg_view, resize_jpeg, ArtworkError};
use crate::library::metadata::{opt_view, same_sound, views, TrackMetadata};
use crate::text::{push_str, string_from};

verus! {

/// The outcome of writing an identification into a file.
#[derive(Debug)]
pub struct AppliedIdentification {
    pub relative_path: String,
    /// Did the file change place?
    pub moved: bool,
    pub artwork_hash: Option<String>,
}

/// The name of the cover put next to an album: every other player knows it, so
/// the library stays usable outside this application.
pub const ALBUM_COVER_FILE: &'static str = "cover.jpg";

/// Longest side of the high-resolution cover kept on disk, in pixels.
pub const ALBUM_COVER_MAX_SIZE: u32 = 1_500;

/// JPEG quality of the high-resolution cover.
pub const ALBUM_COVER_QUALITY: u8 = 90;

/// Longest side of the cover embedded in each file: it travels in every file,
/// so it stays small.
pub const EMBEDDED_COVER_SIZE: u32 = 600;

/// JPEG quality of the embedded cover.
pub const EMBEDDED_COVER_QUALITY: u8 = 85;

/// The cover to embed in a file, as JPEG: at most `EMBEDDED_COVER_SIZE` on a
/// side, never enlarged.
pub fn embedded_cover(bytes: &[u8]) -> (r: Result<Vec<u8>, ArtworkError>)
    ensures
        jpeg_of(bytes@, EMBEDDED_COVER_SIZE, jpeg_view(r)),
{
    resize_jpeg(bytes, EMBEDDED_COVER_SIZE, EMBEDDED_COVER_QUALITY)
}

/// The role of a picture embedded in a file.
#[derive(Debug, Clone, Copy, PartialEq, Eq, Structural)]
pub enum PictureKind {
    /// The front cover.
    CoverFront,
}

/// A picture to embed in a file's tags: always a JPEG.
#[derive(Debug, Clone)]
pub struct EmbeddedPicture {
    pub kind: PictureKind,
    pub data: Vec<u8>,
}

/// The cover to embed in a file: the front cover, as the JPEG `embedded_cover`
/// gives — embedded besides `cover.jpg`, so that a player reading only the
/// audio file finds it too.
pub fn embedded_picture(bytes: &[u8]) -> (r: Result<EmbeddedPicture, ArtworkError>)
    ensures
        match r {
            Ok(p) => p.kind == PictureKind::CoverFront && jpeg_of(
                bytes@,
                EMBEDDED_COVER_SIZE,
                Ok(p.data@),
            ),
            Err(e) => jpeg_of(bytes@, EMBEDDED_COVER_SIZE, Err(e)),
        },
{
    match embedded_cover(bytes) {
        Ok(data) => Ok(EmbeddedPicture { kind: PictureKind::CoverFront, data }),
        Err(e) => Err(e),
    }
}

/// The high-resolution cover put next to an album, as JPEG: at most
/// `ALBUM_COVER_MAX_SIZE` on a side, never enlarged.
pub fn album_cover(bytes: &[u8]) -> (r: Result<Vec<u8>, ArtworkError>)
    ensures
        jpeg_of(bytes@, ALBUM_COVER_MAX_SIZE, jpeg_view(r)),
{
    resize_jpeg(bytes, ALBUM_COVER_MAX_SIZE, ALBUM_COVER_QUALITY)
}

/// The identification **is authoritative** on everything that describes the
/// work — that is the point of asking for it; the file's technical
/// characteristics (duration, format, bit rate) stay the file's own.
pub open spec fn merged(local: TrackMetadata, identified: RecordingMetadata, m: TrackMetadata) -> bool {
    &&& same_sound(local, m)
    &&& !m.from_filename
    &&& if crate::text::trim(identified.title@).len() > 0 {
        m.title@ == identified.title@
    } else {
        m.title == local.title
    }
    &&& if identified.artists@.len() > 0 {
        views(m.artists@) == views(identified.artists@)
    } else {
        m.artists == local.artists
    }
    &&& views(m.featured_artists@) == views(identified.featured_artists@)
    &&& opt_view(m.album_artist) == (if identified.artists@.len() > 0 {
        Some(identified.artists@[0]@)
    } else {
        None
    })
    &&& if identified.album is Some {
        opt_view(m.album) == opt_view(identified.album)
    } else {
        m.album == local.album
    }
    &&& m.year == (if identified.year is Some {
        identified.year
    } else {
        local.year
    })
    &&& m.track_no == (if identified.track_no is Some {
        identified.track_no
    } else {
        local.track_no
    })
    &&& m.disc_no == (if identified.disc_no is Some {
        identified.disc_no
    } else {
        local.disc_no
    })
    &&& match identified.genre {
        Some(g) => views(m.genres@) == seq![g@],
        None => m.genres == local.genres,
    }
}

/// A copy of a list of strings.
fn copy_strings(v: &Vec<String>) -> (r: Vec<String>)
    ensures
        views(r@) == views(v@),
{
    let mut out: Vec<String> = Vec::new();
    let mut i: usize = 0;
    while i < v.len()
        invariant
            i <= v@.len(),
            views(out@) == views(v@.take(i as int)),
        decreases v@.len() - i,
    {
        let ghost before = out@;
        let item = v[i].clone();
        assert(item@ == v@[i as int]@);
        out.push(item);
        assert(views(out@) =~= views(before).push(item@));
        assert(v@.take(i + 1) =~= v@.take(i as int).push(v@[i as int]));
        assert(views(v@.take(i + 1)) =~= views(v@.take(i as int)).push(v@[i as int]@));
        i = i + 1;
    }
    assert(v@.take(i as int) =~= v@);
    out
}

/// Merges the identified metadata into the file's.
pub fn merge(local: &mut TrackMetadata, identified: &RecordingMetadata)
    ensures
        merged(*old(local), *identified, *final(local)),
{
    let title = crate::text::trim_chars(crate::text::chars_of(identified.title.as_str()).as_slice());
    if title.len() > 0 {
        local.title = identified.title.clone();
    }
    if identified.artists.len() > 0 {
        local.artists = copy_strings(&identified.artists);
    }
    local.featured_artists = copy_strings(&identified.featured_artists);
    local.album_artist = match identified.filing_artist() {
        Some(a) => Some(crate::text::string_from(crate::text::chars_of(a).as_slice())),
        None => None,
    };
    if identified.album.is_some() {
        local.album = identified.album.clone();
    }
    if identified.year.is_some() {
        local.year = identified.year;
    }
    if identified.track_no.is_some() {
        local.track_no = identified.track_no;
    }
    if identified.disc_no.is_some() {
        local.disc_no = identified.disc_no;
    }
    if let Some(genre) = &identified.genre {
        let mut genres: Vec<String> = Vec::new();
        genres.push(genre.clone());
        assert(views(genres@) =~= seq![genre@]);
        local.genres = genres;
    }
    // The metadata no longer come from a guess on the file name.
    local.from_filename = false;
}

/// Texts joined by a separator.
pub open spec fn joined(items: Seq<Seq<char>>, sep: Seq<char>) -> Seq<char>
    decreases items.len(),
{
    if items.len() == 0 {
        Seq::empty()
    } else if items.len() == 1 {
        items[0]
    } else {
        joined(items.drop_last(), sep) + sep + items.last()
    }
}

/// The artist field carries the full credit, guests included — what other
/// players expect: « A, B feat. C, D ».
pub open spec fn credit(artists: Seq<Seq<char>>, featured: Seq<Seq<char>>) -> Seq<char> {
    if featured.len() == 0 {
        joined(artists, ", "@)
    } else {
        joined(artists, ", "@) + " feat. "@ + joined(featured, ", "@)
    }
}

/// Appends the texts of `items`, joined by `sep`.
fn push_joined(out: &mut Vec<char>, items: &Vec<String>, sep: &str)
    ensures
        final(out)@ == old(out)@ + joined(views(items@), sep@),
{
    let ghost start = out@;
    let mut i: usize = 0;
    while i < items.len()
        invariant
            i <= items@.len(),
            out@ == start + joined(views(items@.take(i as int)), sep@),
        decreases items@.len() - i,
    {
        let ghost before = out@;
        assert(views(items@.take(i + 1)).drop_last() =~= views(items@.take(i as int)));
        assert(views(items@.take(i + 1)).last() == items@[i as int]@);
        if i > 0 {
            push_str(out, sep);
        } else {
            assert(views(items@.take(i as int)) =~= Seq::<Seq<char>>::empty());
        }
        push_str(out, items[i].as_str());
        assert(out@ =~= start + joined(views(items@.take(i + 1)), sep@));
        i = i + 1;
    }
    assert(items@.take(i as int) =~= items@);
}

/// The tags written into a file: they replace its whole tag block.
#[derive(Debug, Clone)]
pub struct TagWrite {
    pub title: String,
    /// The full credit; nothing when it would be empty.
    pub artist: Option<String>,
    pub album: Option<String>,
    pub album_artist: Option<String>,
    pub year: Option<u32>,
    pub track: Option<u32>,
    pub disc: Option<u32>,
    /// The first genre.
    pub genre: Option<String>,
    /// Lyrics are written back as they are: the block is replaced by a new one,
    /// and leaving them out would erase timed lyrics nothing could restore.
    pub lyrics: Option<String>,
}

/// The tags to write for the given metadata (the cover is embedded beside
/// them, see [`embedded_cover`]).
pub fn tags_to_write(m: &TrackMetadata) -> (r: TagWrite)
    ensures
        r.title@ == m.title@,
        opt_view(r.artist) == (if credit(views(m.artists@), views(m.featured_artists@)).len() > 0 {
            Some(credit(views(m.artists@), views(m.featured_artists@)))
        } else {
            None
        }),
        opt_view(r.album) == opt_view(m.album),
        opt_view(r.album_artist) == opt_view(m.album_artist),
        r.year == m.year,
        r.track == m.track_no,
        r.disc == m.disc_no,
        opt_view(r.genre) == (if m.genres@.len() > 0 {
            Some(m.genres@[0]@)
        } else {
            None
        }),
        opt_view(r.lyrics) == opt_view(m.lyrics),
{
    let mut artist: Vec<char> = Vec::new();
    push_joined(&mut artist, &m.artists, ", ");
    if m.featured_artists.len() > 0 {
        push_str(&mut artist, " feat. ");
        push_joined(&mut artist, &m.featured_artists, ", ");
    }
    proof {
        assert(artist@ =~= credit(views(m.artists@), views(m.featured_artists@)));
    }
    TagWrite {
        title: m.title.clone(),
        artist: if artist.len() > 0 {
            Some(string_from(artist.as_slice()))
        } else {
            None
        },
        album: m.album.clone(),
        album_artist: m.album_artist.clone(),
        year: m.year,
        track: m.track_no,
        disc: m.disc_no,
        genre: if m.genres.len() > 0 {
            Some(m.genres[0].clone())
        } else {
            None
        },
        lyrics: m.lyrics.clone(),
    }
}

/// Whether applying an identification moves the file: only when the filing
/// path the merged metadata call for differs from where the file stands.
pub fn moves_file(desired: &str, current: &str) -> (r: bool)
    ensures
        r == (desired@ != current@),
{
    !crate::text::chars_eq(crate::text::chars_of(desired).as_slice(), crate::text::chars_of(current).as_slice())
}

// ── Applying an identification, step by step ───────────────────────────────

/// The steps of applying an identification to a file, in order.
#[derive(Debug, Clone, Copy, PartialEq, Eq, Structural)]
pub enum ApplyStep {
    /// Resolving the file's path and checking that the file is there.
    CheckFile,
    /// Reading the file's metadata and merging the identification into them.
    Merge,
    /// Writing the tags.
    WriteTags,
    /// Computing the new content fingerprint and size.
    Hash,
    /// Moving the file where the merged metadata file it, when that differs.
    Move,
    /// Putting the high-resolution cover next to the album (when there is one).
    StoreAlbumCover,
    /// Storing the cover's thumbnail (when there is one).
    StoreThumbnail,
    /// Recording the new identity in the database.
    Record,
}

/// How a step went.
#[derive(Debug, Clone, PartialEq, Eq)]
pub enum StepReport {
    Done,
    /// The file is not there (checking it).
    Missing,
    /// The step failed, with its error.
    Failed(String),
    /// A path could not be resolved, with the error.
    Unresolved(String),
}

/// What follows a step.
#[derive(Debug, Clone, PartialEq, Eq)]
pub enum ApplyNext {
    Go(ApplyStep),
    /// The application fails with this error.
    Fail(String),
    /// The identification is applied.
    Finished,
}

/// `StepReport` as plain values.
pub enum StepReportView {
    Done,
    Missing,
    Failed(Seq<char>),
    Unresolved(Seq<char>),
}

/// `ApplyNext` as plain values.
pub enum ApplyNextView {
    Go(ApplyStep),
    Fail(Seq<char>),
    Finished,
}

pub open spec fn step_report_view(r: StepReport) -> StepReportView {
    match r {
        StepReport::Done => StepReportView::Done,
        StepReport::Missing => StepReportView::Missing,
        StepReport::Failed(e) => StepReportView::Failed(e@),
        StepReport::Unresolved(e) => StepReportView::Unresolved(e@),
    }
}

pub open spec fn apply_next_view(n: ApplyNext) -> ApplyNextView {
    match n {
        ApplyNext::Go(s) => ApplyNextView::Go(s),
        ApplyNext::Fail(e) => ApplyNextView::Fail(e@),
        ApplyNext::Finished => ApplyNextView::Finished,
    }
}

/// The position of a step in the sequence.
pub open spec fn step_rank(step: ApplyStep) -> int {
    match step {
        ApplyStep::CheckFile => 0,
        ApplyStep::Merge => 1,
        ApplyStep::WriteTags => 2,
        ApplyStep::Hash => 3,
        ApplyStep::Move => 4,
        ApplyStep::StoreAlbumCover => 5,
        ApplyStep::StoreThumbnail => 6,
        ApplyStep::Record => 7,
    }
}

/// Does the step write anything (the file, the disk, the database)?
pub open spec fn writes(step: ApplyStep) -> bool {
    step_rank(step) >= 2
}

/// The error of a file that is not there.
pub open spec fn missing_file(relative_path: Seq<char>) -> Seq<char> {
    "fichier introuvable : "@ + relative_path
}

/// The sequence of applying an identification to the file at `relative_path`,
/// with a cover or not. The file must be there before anything is written; a
/// failure to store the cover (next to the album, or as a thumbnail) never
/// fails the application: the tags are right, which is what matters. Every
/// other failure stops it with its error.
pub open spec fn apply_spec(
    step: ApplyStep,
    report: StepReportView,
    relative_path: Seq<char>,
    has_cover: bool,
) -> ApplyNextView {
    match report {
        StepReportView::Unresolved(e) => ApplyNextView::Fail(e),
        _ => match step {
            ApplyStep::CheckFile => match report {
                StepReportView::Done => ApplyNextView::Go(ApplyStep::Merge),
                StepReportView::Failed(e) => ApplyNextView::Fail(e),
                _ => ApplyNextView::Fail(missing_file(relative_path)),
            },
            ApplyStep::StoreAlbumCover => ApplyNextView::Go(ApplyStep::StoreThumbnail),
            ApplyStep::StoreThumbnail => ApplyNextView::Go(ApplyStep::Record),
            _ => match report {
                StepReportView::Done => match step {
                    ApplyStep::Merge => ApplyNextView::Go(ApplyStep::WriteTags),
                    ApplyStep::WriteTags => ApplyNextView::Go(ApplyStep::Hash),
                    ApplyStep::Hash => ApplyNextView::Go(ApplyStep::Move),
                    ApplyStep::Move => if has_cover {
                        ApplyNextView::Go(ApplyStep::StoreAlbumCover)
                    } else {
                        ApplyNextView::Go(ApplyStep::Record)
                    },
                    _ => ApplyNextView::Finished,
                },
                StepReportView::Failed(e) => ApplyNextView::Fail(e),
                _ => ApplyNextView::Fail(Seq::empty()),
            },
        },
    }
}

/// Decides what follows a step of applying an identification.
pub fn apply_next(step: ApplyStep, report: StepReport, relative_path: &str, has_cover: bool) -> (r:
    ApplyNext)
    ensures
        apply_next_view(r) == apply_spec(step, step_report_view(report), relative_path@, has_cover),
{
    proof {
        reveal_strlit("");
    }
    match report {
        StepReport::Unresolved(e) => return ApplyNext::Fail(e),
        _ => {},
    }
    match step {
        ApplyStep::CheckFile => match report {
            StepReport::Done => ApplyNext::Go(ApplyStep::Merge),
            StepReport::Failed(e) => ApplyNext::Fail(e),
            _ => {
                let mut out: Vec<char> = Vec::new();
                crate::text::push_str(&mut out, "fichier introuvable : ");
                crate::text::push_str(&mut out, relative_path);
                ApplyNext::Fail(crate::text::string_from(out.as_slice()))
            },
        },
        ApplyStep::StoreAlbumCover => ApplyNext::Go(ApplyStep::StoreThumbnail),
        ApplyStep::StoreThumbnail => ApplyNext::Go(ApplyStep::Record),
        _ => match report {
            StepReport::Done => match step {
                ApplyStep::Merge => ApplyNext::Go(ApplyStep::WriteTags),
                ApplyStep::WriteTags => ApplyNext::Go(ApplyStep::Hash),
                ApplyStep::Hash => ApplyNext::Go(ApplyStep::Move),
                ApplyStep::Move => if has_cover {
                    ApplyNext::Go(ApplyStep::StoreAlbumCover)
                } else {
                    ApplyNext::Go(ApplyStep::Record)
                },
                _ => ApplyNext::Finished,
            },
            StepReport::Failed(e) => ApplyNext::Fail(e),
            _ => ApplyNext::Fail(String::new()),
        },
    }
}

/// The application starts by checking the file, and only moves forward; it
/// leaves the check only when the file is there, so a missing file fails before
/// anything is written; and a failure to store the cover never fails it.
pub proof fn lemma_apply_order(
    step: ApplyStep,
    report: StepReportView,
    relative_path: Seq<char>,
    has_cover: bool,
)
    ensures
        apply_spec(ApplyStep::CheckFile, StepReportView::Missing, relative_path, has_cover)
            == ApplyNextView::Fail(missing_file(relative_path)),
        apply_spec(step, report, relative_path, has_cover) matches ApplyNextView::Go(next) ==> (
        step_rank(next) > step_rank(step) && (step == ApplyStep::CheckFile ==> report
            == StepReportView::Done && !writes(next))),
        (step == ApplyStep::StoreAlbumCover || step == ApplyStep::StoreThumbnail) && report
            !is Unresolved ==> apply_spec(step, report, relative_path, has_cover) is Go,
{
}

} // verus!
