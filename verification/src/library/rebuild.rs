//! The rebuild of a library: what stays in place when the former library is
//! put aside, the free name each folder gets in the archive, and what the
//! rebuild did. Moving the folders and emptying the database belong to the
//! application.
use vstd::prelude::*;

use crate::library::naming::INBOX_DIR;
use crate::text::{chars_eq, chars_of};

verus! {

/// Folder where the former library is put aside.
pub const ARCHIVE_DIR: &'static str = "_Ancien";

/// What the rebuild did.
#[derive(Debug, Default, Clone, Copy, PartialEq, Eq)]
pub struct RebuildReport {
    /// Tracks removed from the library.
    pub tracks: u64,
    /// Folders moved into `_Ancien`.
    pub folders_set_aside: u64,
    /// Albums that became empty, removed.
    pub albums: u64,
    /// Artists that became empty, removed.
    pub artists: u64,
}

/// What stays in place: the drop folder, the archive itself, and the system's
/// hidden files — a moved `.DS_Store` would help nobody.
pub open spec fn spared(name: Seq<char>) -> bool {
    name == INBOX_DIR@ || name == ARCHIVE_DIR@ || (name.len() > 0 && name[0] == '.')
}

/// Whether an entry of the library's root stays in place.
pub fn is_spared(name: &str) -> (r: bool)
    ensures
        r == spared(name@),
{
    let n = chars_of(name);
    let inbox: &str = INBOX_DIR;
    let archive: &str = ARCHIVE_DIR;
    chars_eq(n.as_slice(), chars_of(inbox).as_slice()) || chars_eq(n.as_slice(), chars_of(archive).as_slice())
        || (n.len() > 0 && n[0] == '.')
}

/// Highest number given to a folder set aside under a name already taken.
pub const MAX_ARCHIVE_NUMBER: u32 = 999;

/// The name to try at attempt `attempt` (from 0) for a folder set aside in
/// the archive: its own name, then « name (2) » to « name (999) », so that a
/// second rebuild never overwrites the first; `None` once all are tried, and
/// the folder then takes its own name.
pub open spec fn archive_name_at(name: Seq<char>, attempt: u32) -> Option<Seq<char>> {
    if attempt == 0 {
        Some(name)
    } else if attempt < MAX_ARCHIVE_NUMBER {
        Some(name + seq![' ', '('] + crate::text::decimal((attempt + 1) as nat) + seq![')'])
    } else {
        None
    }
}

/// The name to try at attempt `attempt` for a folder set aside in the archive.
pub fn archive_candidate(name: &str, attempt: u32) -> (r: Option<String>)
    ensures
        match r {
            Some(c) => archive_name_at(name@, attempt) == Some(c@),
            None => archive_name_at(name@, attempt) is None,
        },
{
    if attempt == 0 {
        Some(name.to_string())
    } else if attempt < MAX_ARCHIVE_NUMBER {
        let mut out = chars_of(name);
        out.push(' ');
        out.push('(');
        let digits = crate::text::write_decimal((attempt + 1) as u64);
        crate::text::push_all(&mut out, digits.as_slice());
        out.push(')');
        assert(out@ =~= name@ + seq![' ', '('] + crate::text::decimal((attempt + 1) as nat) + seq![')']);
        Some(crate::text::string_from(out.as_slice()))
    } else {
        None
    }
}

} // verus!
