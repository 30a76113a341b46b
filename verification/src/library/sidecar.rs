//! `.lrc` files dropped beside the library: what their names say, and which
//! of them are worth attaching to their track. Finding the track and moving the
//! file belong to the application.
use vstd::prelude::*;

use crate::identify::spotify::first_occurrence;
use crate::text::{chars_of, contains_seq, find, occurs_at, slice_chars, string_from, trim, trim_chars};

verus! {

/// What the collection did.
#[derive(Debug, Default, Clone, Copy, PartialEq, Eq)]
pub struct AdoptionReport {
    /// Files attached to their track.
    pub adopted: u64,
    /// Files left in the drop folder, for want of a matching track.
    pub orphans: u64,
}

/// ` - `, the separator of « Artist - Title ».
pub open spec fn name_separator() -> Seq<char> {
    seq![' ', '-', ' ']
}

/// Artist and title of a file name: the first « - » separates them, both
/// trimmed; when either side is blank, or there is no separator, the whole
/// trimmed name is the title.
pub open spec fn split_name_of(stem: Seq<char>) -> (Option<Seq<char>>, Seq<char>) {
    match first_occurrence(stem, name_separator()) {
        Some(p) => {
            let artist = trim(stem.take(p));
            let title = trim(stem.skip(p + 3));
            if artist.len() == 0 || title.len() == 0 {
                (None, trim(stem))
            } else {
                (Some(artist), title)
            }
        },
        None => (None, trim(stem)),
    }
}

/// Splits « Artist - Title ».
pub fn split_name(stem: &str) -> (r: (Option<String>, String))
    ensures
        r.1@ == split_name_of(stem@).1,
        match r.0 {
            Some(a) => split_name_of(stem@).0 == Some(a@),
            None => split_name_of(stem@).0 is None,
        },
{
    let s = chars_of(stem);
    let sep: Vec<char> = vec![' ', '-', ' '];
    assert(sep@ =~= name_separator());
    match find(s.as_slice(), sep.as_slice()) {
        Some(p) => {
            proof {
                assert(contains_seq(s@, name_separator()));
                let c = choose|i: int| occurs_at(s@, name_separator(), i) && forall|j: int|
                    0 <= j < i ==> !occurs_at(s@, name_separator(), j);
                assert(c == p);
            }
            let n = s.len();
            let left = slice_chars(s.as_slice(), 0, p);
            let right = slice_chars(s.as_slice(), p + 3, n);
            assert(left@ =~= s@.take(p as int));
            assert(right@ =~= s@.skip(p + 3));
            let artist = trim_chars(left.as_slice());
            let title = trim_chars(right.as_slice());
            if artist.len() == 0 || title.len() == 0 {
                (None, string_from(trim_chars(s.as_slice()).as_slice()))
            } else {
                (Some(string_from(artist.as_slice())), string_from(title.as_slice()))
            }
        },
        None => (None, string_from(trim_chars(s.as_slice()).as_slice())),
    }
}

/// The lyrics a dropped `.lrc` file gives its track: its text trimmed, when it
/// carries timed lines. One without timestamps brings nothing the tag does not
/// already hold: attaching it would replace a text by the same text.
pub fn adoptable(text: &str) -> (r: Option<String>)
    ensures
        match r {
            Some(t) => t@ == trim(text@) && trim(text@).len() > 0 && crate::library::lyrics::analysed(
                trim(text@),
            ).0.len() > 0,
            None => trim(text@).len() == 0 || crate::library::lyrics::analysed(trim(text@)).0.len() == 0,
        },
{
    let trimmed = string_from(trim_chars(chars_of(text).as_slice()).as_slice());
    if chars_of(trimmed.as_str()).len() == 0 || !crate::library::lyrics::is_synced_text(trimmed.as_str()) {
        return None;
    }
    Some(trimmed)
}

} // verus!
