//! A folder scan: which folders it does not enter, how each file's import is
//! counted, and the progress reported after each file. Walking the folder and
//! importing belong to the application.
use vstd::prelude::*;

use crate::library::naming::INBOX_DIR;
use crate::text::{chars_eq, chars_of};

verus! {

/// Progress emitted while scanning, after each file.
#[derive(Debug, Clone)]
pub struct ScanProgress {
    pub processed: usize,
    pub total: usize,
    pub imported: usize,
    pub duplicates: usize,
    pub failed: usize,
    /// Name of the current file, for display.
    pub current: String,
}

/// Summary of a scan.
#[derive(Debug, Clone, Default)]
pub struct ScanSummary {
    pub total: usize,
    pub imported: usize,
    pub duplicates: usize,
    pub failed: usize,
    /// The first errors met, for diagnosis; deliberately capped.
    pub errors: Vec<String>,
}

/// Most errors kept in a summary: enough to diagnose, without drowning the
/// report when a whole folder fails.
pub const MAX_REPORTED_ERRORS: usize = 20;

/// Whether an entry is the watched drop folder, whose files may be downloads
/// in progress: a scan does not enter it.
pub fn is_inbox(file_name: Option<&str>) -> (r: bool)
    ensures
        r == (file_name matches Some(n) && n@ == INBOX_DIR@),
{
    match file_name {
        Some(n) => {
            let inbox: &str = INBOX_DIR;
            chars_eq(chars_of(n).as_slice(), chars_of(inbox).as_slice())
        },
        None => false,
    }
}

/// What one file's import came to, as a scan counts it.
pub enum FileResult {
    /// Imported, or given back to a track that had lost its file.
    Imported,
    /// Already in the library.
    Duplicate,
    /// Failed, with the message to keep.
    Failed(String),
}

impl ScanSummary {
    /// The summary of a scan of `total` files, before any is imported.
    pub fn starting(total: usize) -> (r: ScanSummary)
        ensures
            r.total == total,
            r.imported == 0 && r.duplicates == 0 && r.failed == 0,
            r.errors@.len() == 0,
    {
        ScanSummary { total, imported: 0, duplicates: 0, failed: 0, errors: Vec::new() }
    }

    /// Counts one file's result; a failure's message is kept only while fewer
    /// than `MAX_REPORTED_ERRORS` are.
    pub fn record(&mut self, result: FileResult)
        requires
            old(self).imported < usize::MAX,
            old(self).duplicates < usize::MAX,
            old(self).failed < usize::MAX,
        ensures
            final(self).total == old(self).total,
            final(self).imported == old(self).imported + (if result is Imported { 1int } else { 0 }),
            final(self).duplicates == old(self).duplicates + (if result is Duplicate { 1int } else { 0 }),
            final(self).failed == old(self).failed + (if result is Failed { 1int } else { 0 }),
            final(self).errors@ == (match result {
                FileResult::Failed(m) => if old(self).errors@.len() < MAX_REPORTED_ERRORS {
                    old(self).errors@.push(m)
                } else {
                    old(self).errors@
                },
                _ => old(self).errors@,
            }),
            old(self).errors@.len() <= MAX_REPORTED_ERRORS ==> final(self).errors@.len() <= MAX_REPORTED_ERRORS,
            counts_of(*final(self)) == recorded(counts_of(*old(self)), result),
    {
        match result {
            FileResult::Imported => {
                self.imported = self.imported + 1;
            },
            FileResult::Duplicate => {
                self.duplicates = self.duplicates + 1;
            },
            FileResult::Failed(message) => {
                self.failed = self.failed + 1;
                if self.errors.len() < MAX_REPORTED_ERRORS {
                    self.errors.push(message);
                }
            },
        }
    }

    /// The progress reported once the file `name`, the `processed`-th, is done.
    pub fn progress(&self, processed: usize, name: String) -> (r: ScanProgress)
        ensures
            r.processed == processed,
            r.total == self.total,
            r.imported == self.imported,
            r.duplicates == self.duplicates,
            r.failed == self.failed,
            r.current == name,
    {
        ScanProgress {
            processed,
            total: self.total,
            imported: self.imported,
            duplicates: self.duplicates,
            failed: self.failed,
            current: name,
        }
    }
}

/// What a summary counts: files imported, duplicates, failures, and the kept
/// error messages.
pub open spec fn counts_of(s: ScanSummary) -> (nat, nat, nat, Seq<Seq<char>>) {
    (s.imported as nat, s.duplicates as nat, s.failed as nat, s.errors@.map_values(|e: String| e@))
}

/// The counts after one more file's result.
pub open spec fn recorded(c: (nat, nat, nat, Seq<Seq<char>>), result: FileResult) -> (
    nat,
    nat,
    nat,
    Seq<Seq<char>>,
) {
    match result {
        FileResult::Imported => (c.0 + 1, c.1, c.2, c.3),
        FileResult::Duplicate => (c.0, c.1 + 1, c.2, c.3),
        FileResult::Failed(m) => (
            c.0,
            c.1,
            c.2 + 1,
            if c.3.len() < MAX_REPORTED_ERRORS {
                c.3.push(m@)
            } else {
                c.3
            },
        ),
    }
}

/// The counts after a series of results, from a scan that starts.
pub open spec fn recorded_all(results: Seq<FileResult>) -> (nat, nat, nat, Seq<Seq<char>>)
    decreases results.len(),
{
    if results.len() == 0 {
        (0, 0, 0, Seq::empty())
    } else {
        recorded(recorded_all(results.drop_last()), results.last())
    }
}

/// The messages of the failures of a series, in order.
pub open spec fn failure_messages(results: Seq<FileResult>) -> Seq<Seq<char>>
    decreases results.len(),
{
    if results.len() == 0 {
        Seq::empty()
    } else {
        match results.last() {
            FileResult::Failed(m) => failure_messages(results.drop_last()).push(m@),
            _ => failure_messages(results.drop_last()),
        }
    }
}

/// Over a whole scan: every file is counted once, as imported, duplicate or
/// failed; every failure is counted; and the summary keeps the messages of the
/// first `MAX_REPORTED_ERRORS` failures, in order.
pub proof fn lemma_scan_counts(results: Seq<FileResult>)
    ensures
        recorded_all(results).0 + recorded_all(results).1 + recorded_all(results).2 == results.len(),
        recorded_all(results).2 == failure_messages(results).len(),
        recorded_all(results).3 == failure_messages(results).take(
            if failure_messages(results).len() < MAX_REPORTED_ERRORS {
                failure_messages(results).len() as int
            } else {
                MAX_REPORTED_ERRORS as int
            },
        ),
    decreases results.len(),
{
    if results.len() > 0 {
        lemma_scan_counts(results.drop_last());
        let f = failure_messages(results.drop_last());
        match results.last() {
            FileResult::Failed(m) => {
                assert(failure_messages(results) == f.push(m@));
                if f.len() < MAX_REPORTED_ERRORS {
                    assert(f.take(f.len() as int).push(m@) =~= f.push(m@).take(f.len() + 1 as int));
                } else {
                    assert(f.take(MAX_REPORTED_ERRORS as int) =~= f.push(m@).take(
                        MAX_REPORTED_ERRORS as int,
                    ));
                }
            },
            _ => {},
        }
    }
}

} // verus!
