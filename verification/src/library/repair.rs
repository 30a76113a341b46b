//! The repair of a library: which copies carry trustworthy tags, and what the
//! repair changed. Walking the disk and the database belongs to the
//! application.
use vstd::prelude::*;

use crate::library::naming::INBOX_DIR;
use crate::library::metadata::opt_str;
use crate::text::{chars_eq, chars_of};

verus! {

/// What the repair changed.
#[derive(Debug, Default, Clone, Copy, PartialEq, Eq)]
pub struct RepairReport {
    /// Tracks that received their audio fingerprint.
    pub hashed: u64,
    /// Duplicate rows removed from the library.
    pub merged: u64,
    /// Duplicate files set aside on disk.
    pub files_set_aside: u64,
    /// Tracks whose original tags could be recovered.
    pub originals_recovered: u64,
    /// Tracks without an album moved out of an album folder.
    pub refiled: u64,
    /// Search index rows brought back in line with the database.
    pub reindexed: u64,
}

impl RepairReport {
    pub fn is_empty(&self) -> (r: bool)
        ensures
            r == (self.hashed == 0 && self.merged == 0 && self.files_set_aside == 0
                && self.originals_recovered == 0 && self.refiled == 0 && self.reindexed == 0),
    {
        self.hashed == 0 && self.merged == 0 && self.files_set_aside == 0
            && self.originals_recovered == 0 && self.refiled == 0 && self.reindexed == 0
    }
}

/// Whether a copy comes from the drop folder (`_Inbox/_Doublons/…`): never
/// handled by this application, it alone carries tags worth trusting. The path
/// is given by its components.
pub fn from_inbox(components: &[String]) -> (r: bool)
    ensures
        r == exists|i: int| 0 <= i < components@.len() && (#[trigger] components@[i])@ == INBOX_DIR@,
{
    let inbox: &str = INBOX_DIR;
    let mut i: usize = 0;
    while i < components.len()
        invariant
            i <= components@.len(),
            inbox@ == INBOX_DIR@,
            forall|j: int| 0 <= j < i ==> (#[trigger] components@[j])@ != INBOX_DIR@,
        decreases components@.len() - i,
    {
        if chars_eq(chars_of(components[i].as_str()).as_slice(), chars_of(inbox).as_slice()) {
            return true;
        }
        i = i + 1;
    }
    false
}

/// The indices of the copies whose flag is `wanted`, in their order.
pub open spec fn indices_where(flags: Seq<bool>, wanted: bool) -> Seq<usize>
    decreases flags.len(),
{
    if flags.len() == 0 {
        Seq::empty()
    } else {
        let rest = indices_where(flags.drop_last(), wanted);
        if flags.last() == wanted {
            rest.push((flags.len() - 1) as usize)
        } else {
            rest
        }
    }
}

/// The order in which the set-aside copies are read, given for each whether it
/// comes from the drop folder: library copies first, copies from the drop folder
/// last, so that theirs is the last word; each group keeps its order.
pub fn recovery_order(inbox_copies: &[bool]) -> (r: Vec<usize>)
    ensures
        r@ == indices_where(inbox_copies@, false) + indices_where(inbox_copies@, true),
{
    let mut library: Vec<usize> = Vec::new();
    let mut inbox: Vec<usize> = Vec::new();
    let mut i: usize = 0;
    while i < inbox_copies.len()
        invariant
            i <= inbox_copies@.len(),
            library@ == indices_where(inbox_copies@.take(i as int), false),
            inbox@ == indices_where(inbox_copies@.take(i as int), true),
        decreases inbox_copies@.len() - i,
    {
        assert(inbox_copies@.take(i as int + 1).drop_last() =~= inbox_copies@.take(i as int));
        if inbox_copies[i] {
            inbox.push(i);
        } else {
            library.push(i);
        }
        i = i + 1;
    }
    assert(inbox_copies@.take(i as int) =~= inbox_copies@);
    let mut j: usize = 0;
    let ghost first = library@;
    while j < inbox.len()
        invariant
            j <= inbox@.len(),
            library@ == first + inbox@.take(j as int),
        decreases inbox@.len() - j,
    {
        library.push(inbox[j]);
        j = j + 1;
        assert(first + inbox@.take(j as int) =~= (first + inbox@.take(j - 1)).push(inbox@[j - 1]));
    }
    assert(inbox@.take(j as int) =~= inbox@);
    library
}

/// A missing text compares as the empty one.
pub open spec fn or_empty(value: Option<Seq<char>>) -> Seq<char> {
    match value {
        Some(v) => v,
        None => Seq::empty(),
    }
}

/// Whether a copy's title and artist become what a track remembers of its
/// origin. A copy from the drop folder corrects what a library copy may have
/// filled wrongly; a library copy only fills a gap; and nothing is written that
/// would leave the remembered title and artist as they are.
pub open spec fn recovers(
    authoritative: bool,
    remembered_title: Option<Seq<char>>,
    remembered_artist: Option<Seq<char>>,
    title: Seq<char>,
    artist: Option<Seq<char>>,
) -> bool {
    &&& (authoritative || remembered_title is None)
    &&& (remembered_title is None || remembered_title != Some(title) || or_empty(remembered_artist)
        != or_empty(artist))
}

fn same_text(a: &str, b: &str) -> (r: bool)
    ensures
        r == (a@ == b@),
{
    chars_eq(chars_of(a).as_slice(), chars_of(b).as_slice())
}

/// Whether a copy's tags are written as the track's original ones (see
/// [`recovers`]); `authoritative` tells that the copy comes from the drop folder.
pub fn recovers_origin(
    authoritative: bool,
    remembered_title: Option<&str>,
    remembered_artist: Option<&str>,
    title: &str,
    artist: Option<&str>,
) -> (r: bool)
    ensures
        r == recovers(
            authoritative,
            opt_str(remembered_title),
            opt_str(remembered_artist),
            title@,
            opt_str(artist),
        ),
{
    match remembered_title {
        None => true,
        Some(known) => {
            if !authoritative {
                return false;
            }
            let before: &str = match remembered_artist {
                Some(a) => a,
                None => "",
            };
            let after: &str = match artist {
                Some(a) => a,
                None => "",
            };
            proof {
                reveal_strlit("");
                assert(before@ =~= or_empty(opt_str(remembered_artist)));
                assert(after@ =~= or_empty(opt_str(artist)));
            }
            !same_text(known, title) || !same_text(before, after)
        },
    }
}

/// What a track remembers of its origin (title, artist) after reading one copy
/// (whether it comes from the drop folder, its title, its artist).
pub open spec fn after_copy(
    remembered: (Option<Seq<char>>, Option<Seq<char>>),
    copy: (bool, Seq<char>, Option<Seq<char>>),
) -> (Option<Seq<char>>, Option<Seq<char>>) {
    if recovers(copy.0, remembered.0, remembered.1, copy.1, copy.2) {
        (Some(copy.1), copy.2)
    } else {
        remembered
    }
}

/// What a track remembers after reading its copies in the given order.
pub open spec fn after_copies(
    remembered: (Option<Seq<char>>, Option<Seq<char>>),
    copies: Seq<(bool, Seq<char>, Option<Seq<char>>)>,
    order: Seq<usize>,
) -> (Option<Seq<char>>, Option<Seq<char>>)
    decreases order.len(),
{
    if order.len() == 0 {
        remembered
    } else {
        after_copy(after_copies(remembered, copies, order.drop_last()), copies[order.last() as int])
    }
}

proof fn lemma_last_index_where(flags: Seq<bool>, k: int)
    requires
        flags.len() <= usize::MAX,
        0 <= k < flags.len(),
        flags[k],
        forall|j: int| k < j < flags.len() ==> !flags[j],
    ensures
        indices_where(flags, true).len() > 0,
        indices_where(flags, true).last() == k,
    decreases flags.len(),
{
    if k < flags.len() - 1 {
        assert(!flags[flags.len() - 1]);
        lemma_last_index_where(flags.drop_last(), k);
    }
}

/// Copies from the drop folder have the last word: when the set-aside copies
/// of a track are read in [`recovery_order`] and one of them comes from the
/// drop folder, the track remembers in the end the title and artist of the last
/// such copy (a missing artist counting as an empty one).
pub proof fn lemma_inbox_has_last_word(
    remembered: (Option<Seq<char>>, Option<Seq<char>>),
    copies: Seq<(bool, Seq<char>, Option<Seq<char>>)>,
    k: int,
)
    requires
        copies.len() <= usize::MAX,
        0 <= k < copies.len(),
        copies[k].0,
        forall|j: int| k < j < copies.len() ==> !(#[trigger] copies[j]).0,
    ensures
        ({
            let flags = copies.map_values(|c: (bool, Seq<char>, Option<Seq<char>>)| c.0);
            let last = after_copies(
                remembered,
                copies,
                indices_where(flags, false) + indices_where(flags, true),
            );
            last.0 == Some(copies[k].1) && or_empty(last.1) == or_empty(copies[k].2)
        }),
{
    let flags = copies.map_values(|c: (bool, Seq<char>, Option<Seq<char>>)| c.0);
    assert forall|j: int| k < j < flags.len() implies !flags[j] by {
        assert(!copies[j].0);
    }
    lemma_last_index_where(flags, k);
    let order = indices_where(flags, false) + indices_where(flags, true);
    assert(order.last() == k);
}

} // verus!
