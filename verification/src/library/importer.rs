//! What importing a file decides: whether it is a duplicate (by its audio, by
//! its whole content, then by its tags), under which name it is filed when the
//! wanted one is taken, which files are worth importing, and when an emptied
//! album folder may go. Hashing, reading the tags, asking the database and
//! moving the file belong to the application, which hands each answer back.
use vstd::prelude::*;

use crate::library::metadata::{is_supported_audio, supported_audio};
use crate::text::chars_of;

verus! {

/// What importing a file produced.
#[derive(Debug)]
pub enum ImportOutcome {
    Imported { track_id: i64, relative_path: String },
    /// The track is already in the library. The source file was **not**
    /// touched: the user decides what to do with it.
    Duplicate { existing_id: i64, reason: &'static str },
    /// The track existed but its file had disappeared: this one takes its place,
    /// and the track keeps its history, favourites and playlists.
    Restored { track_id: i64, relative_path: String },
}

/// How to handle the file on disk.
#[derive(Debug, Clone, Copy, PartialEq, Eq)]
pub enum FileHandling {
    /// Move the file and file it by the naming convention.
    Organize,
    /// Leave it where it is and only index it (rescan of a library already
    /// filed).
    IndexInPlace,
}

/// A file to leave aside: without a readable name, hidden, or one of the
/// `._` companions macOS sows on exFAT.
pub open spec fn skipped(file_name: Option<Seq<char>>) -> bool {
    match file_name {
        None => true,
        Some(n) => n.len() > 0 && n[0] == '.',
    }
}

/// Whether a file is to be left aside, by its name.
pub fn should_skip(file_name: Option<&str>) -> (r: bool)
    ensures
        r == skipped(crate::library::metadata::opt_str(file_name)),
{
    match file_name {
        None => true,
        Some(n) => {
            let c = chars_of(n);
            c.len() > 0 && c[0] == '.'
        },
    }
}

/// A file that can be imported, by its name: not left aside, and audio.
pub open spec fn importable(file_name: Option<Seq<char>>) -> bool {
    !skipped(file_name) && supported_audio(file_name->0)
}

/// Whether a file can be imported: not left aside, and audio.
pub fn is_importable(file_name: Option<&str>) -> (r: bool)
    ensures
        r == importable(crate::library::metadata::opt_str(file_name)),
{
    match file_name {
        None => false,
        Some(n) => !should_skip(file_name) && is_supported_audio(n),
    }
}

/// The name tried for the `suffix`-th copy of a path: « stem (2).ext », the
/// extension being what follows the last dot (« stem (2) » without one).
/// exFAT is **case-insensitive**: two tracks « Intro » and « INTRO » of one album
/// would aim at the same file, and the second would silently replace the first.
pub open spec fn numbered(desired: Seq<char>, suffix: u32) -> Seq<char> {
    let tag = seq![' ', '('] + crate::text::decimal(suffix as nat) + seq![')'];
    match crate::library::metadata::last_dot(desired) {
        Some(i) => if i + 1 == desired.len() {
            desired.take(i) + tag
        } else {
            desired.take(i) + tag + seq!['.'] + desired.skip(i + 1)
        },
        None => desired + tag,
    }
}

/// The name tried for the `suffix`-th copy of a path.
pub fn numbered_candidate(desired: &str, suffix: u32) -> (r: String)
    ensures
        r@ == numbered(desired@, suffix),
{
    let d = chars_of(desired);
    let mut out: Vec<char> = Vec::new();
    let digits = crate::text::write_decimal(suffix as u64);
    let dot = crate::library::metadata::find_last_dot(d.as_slice());
    proof {
        crate::library::metadata::lemma_last_dot_in(d@);
    }
    let stem_end = match dot {
        Some(i) => i,
        None => d.len(),
    };
    let stem = crate::text::slice_chars(d.as_slice(), 0, stem_end);
    crate::text::push_all(&mut out, stem.as_slice());
    out.push(' ');
    out.push('(');
    crate::text::push_all(&mut out, digits.as_slice());
    out.push(')');
    match dot {
        Some(i) => {
            if i < d.len() - 1 {
                out.push('.');
                let ext = crate::text::slice_chars(d.as_slice(), i + 1, d.len());
                crate::text::push_all(&mut out, ext.as_slice());
            }
        },
        None => {},
    }
    assert(out@ =~= numbered(desired@, suffix));
    crate::text::string_from(out.as_slice())
}

/// Highest copy number tried before giving up on a free name.
pub const MAX_COPY_NUMBER: u32 = 99;

/// The name to try at attempt `attempt` (counting from 0) when filing under
/// `desired`: the wanted name, then « (2) » to « (99) »; `None` once they are
/// all taken.
pub open spec fn candidate_at(desired: Seq<char>, attempt: u32) -> Option<Seq<char>> {
    if attempt == 0 {
        Some(desired)
    } else if attempt < MAX_COPY_NUMBER {
        Some(numbered(desired, (attempt + 1) as u32))
    } else {
        None
    }
}

/// The name to try at attempt `attempt` when filing under `desired`; the
/// application tries them in turn until one is free (a name held by the file
/// itself counts as free).
pub fn collision_candidate(desired: &str, attempt: u32) -> (r: Option<String>)
    ensures
        match r {
            Some(c) => candidate_at(desired@, attempt) == Some(c@),
            None => candidate_at(desired@, attempt) is None,
        },
{
    if attempt == 0 {
        Some(desired.to_string())
    } else if attempt < MAX_COPY_NUMBER {
        Some(numbered_candidate(desired, attempt + 1))
    } else {
        None
    }
}

/// The fingerprints a duplicate is looked up by, in the order they are tried.
/// The audio fingerprint alone survives a rewrite of the tags; the content one
/// still works where the audio cannot be isolated; the tags catch a copy whose
/// bytes differ.
#[derive(Debug, Clone, Copy, PartialEq, Eq, Structural)]
pub enum Lookup {
    Audio,
    Content,
    Tags,
}

/// The reason given for a duplicate found by a lookup.
pub open spec fn reason_of(by: Lookup) -> Seq<char> {
    match by {
        Lookup::Audio => "même audio, tags différents"@,
        Lookup::Content => "fichier identique"@,
        Lookup::Tags => "même titre et même durée"@,
    }
}

/// A track a lookup found: its id, and whether its file has disappeared from
/// the disk (asked of the disk, not of the last scan).
#[derive(Debug, Clone, Copy, PartialEq, Eq, Structural)]
pub struct Found {
    pub track_id: i64,
    pub file_missing: bool,
}

/// Where the duplicate check stands after a lookup.
#[derive(Debug, Clone, Copy, PartialEq, Eq)]
pub enum Dedup {
    /// A duplicate whose file is there: the import stops and the file is not
    /// touched.
    Duplicate { existing_id: i64, reason: &'static str },
    /// Go on; `restore` is the track whose file disappeared, which this file
    /// will give back its file.
    Proceed { restore: Option<i64> },
}

/// Whether the lookup `by` is made: the audio one always; the others only as
/// long as no track waiting for its file was found.
pub open spec fn looked_up(by: Lookup, restore: Option<i64>) -> bool {
    by == Lookup::Audio || restore is None
}

/// Whether the lookup `by` is to be made, given the track to restore so far.
pub fn should_look_up(by: Lookup, restore: Option<i64>) -> (r: bool)
    ensures
        r == looked_up(by, restore),
{
    match by {
        Lookup::Audio => true,
        _ => restore.is_none(),
    }
}

/// What a lookup's answer decides: a track whose file is there makes a
/// duplicate; a track whose file is missing is to be restored; nothing found
/// leaves things as they were.
pub fn after_lookup(by: Lookup, found: Option<Found>, restore: Option<i64>) -> (r: Dedup)
    ensures
        match found {
            None => r == (Dedup::Proceed { restore }),
            Some(f) => if f.file_missing {
                r == (Dedup::Proceed { restore: Some(f.track_id) })
            } else {
                r matches Dedup::Duplicate { existing_id, reason } && existing_id == f.track_id
                    && reason@ == reason_of(by)
            },
        },
{
    match found {
        None => Dedup::Proceed { restore },
        Some(f) => {
            if f.file_missing {
                Dedup::Proceed { restore: Some(f.track_id) }
            } else {
                let reason: &'static str = match by {
                    Lookup::Audio => "même audio, tags différents",
                    Lookup::Content => "fichier identique",
                    Lookup::Tags => "même titre et même durée",
                };
                Dedup::Duplicate { existing_id: f.track_id, reason }
            }
        },
    }
}

/// How an import is recorded in the journal: `api` for what arrived by the
/// watched folder or the local API, `manual` otherwise.
pub fn import_mode(origin: &str) -> (r: &'static str)
    ensures
        r@ == (if origin@ == "auto_import"@ { "api"@ } else { "manual"@ }),
{
    let auto: &str = "auto_import";
    if crate::text::chars_eq(chars_of(origin).as_slice(), chars_of(auto).as_slice()) {
        "api"
    } else {
        "manual"
    }
}

/// A file this application leaves in an album folder, or that macOS sows there:
/// the album cover, `.DS_Store`, and the `._` companions.
pub open spec fn left_behind(name: Seq<char>) -> bool {
    name == crate::identify::tagger::ALBUM_COVER_FILE@ || name == ".DS_Store"@ || (name.len() >= 2
        && name[0] == '.' && name[1] == '_')
}

/// Whether an album folder holding these names may be removed: only what this
/// application or macOS left there remains. Anything else stops the cleaning.
pub fn prunable(names: &[String]) -> (r: bool)
    ensures
        r == forall|i: int| 0 <= i < names@.len() ==> left_behind(#[trigger] names@[i]@),
{
    let cover: &str = crate::identify::tagger::ALBUM_COVER_FILE;
    let store: &str = ".DS_Store";
    let mut i: usize = 0;
    while i < names.len()
        invariant
            i <= names@.len(),
            cover@ == crate::identify::tagger::ALBUM_COVER_FILE@,
            store@ == ".DS_Store"@,
            forall|j: int| 0 <= j < i ==> left_behind(#[trigger] names@[j]@),
        decreases names@.len() - i,
    {
        let n = chars_of(names[i].as_str());
        let ours = crate::text::chars_eq(n.as_slice(), chars_of(cover).as_slice())
            || crate::text::chars_eq(n.as_slice(), chars_of(store).as_slice())
            || (n.len() >= 2 && n[0] == '.' && n[1] == '_');
        if !ours {
            return false;
        }
        i = i + 1;
    }
    true
}

} // verus!
