//! The identification worker: the decisions of its loop and of the
//! identification of one track, its pauses, and its progress report.
//!
//! The worker alternates outside work (fingerprint, network, database) and
//! decisions. The decisions are here, as functions from what happened to what
//! to do next; the application performs the work and reports back.
use vstd::prelude::*;

use crate::text::{push_str, string_from};

verus! {

/// How far the identification of the library has gone.
#[derive(Debug, Clone, Copy)]
pub struct IdentificationProgress {
    pub identified: i64,
    pub pending: i64,
    /// Tracks absent from the public databases. Not a failure.
    pub not_found: i64,
    pub failed: i64,
    pub total: i64,
}

impl IdentificationProgress {
    pub fn is_complete(&self) -> (r: bool)
        ensures
            r == (self.pending == 0),
    {
        self.pending == 0
    }
}

/// Pause between two tracks, in milliseconds: the services' limiters already
/// space the requests; this pause spares the disk and the processor.
pub const REST_BETWEEN_TRACKS: u64 = 600;

/// Pause when there is nothing to do, in milliseconds.
pub const IDLE_INTERVAL: u64 = 30_000;

/// Ceiling of the pause multiplier after repeated failures: ten times the idle
/// pause, five minutes.
pub const MAX_BACKOFF_MULTIPLIER: u32 = 10;

/// The pause after `failures` consecutive service failures, in milliseconds:
/// the idle pause times the failures, counted between one and the ceiling.
/// Without it, a mistyped key would hammer the service continuously.
pub fn cooldown(failures: u32) -> (r: u64)
    ensures
        r == IDLE_INTERVAL * (if failures < 1 {
            1
        } else if failures > MAX_BACKOFF_MULTIPLIER {
            MAX_BACKOFF_MULTIPLIER
        } else {
            failures
        }),
        IDLE_INTERVAL <= r <= IDLE_INTERVAL * MAX_BACKOFF_MULTIPLIER,
{
    let multiplier: u64 = if failures < 1 {
        1
    } else if failures > MAX_BACKOFF_MULTIPLIER {
        MAX_BACKOFF_MULTIPLIER as u64
    } else {
        failures as u64
    };
    IDLE_INTERVAL * multiplier
}

/// The pause never shrinks when failures accumulate.
pub proof fn lemma_cooldown_grows(fewer: u32, more: u32)
    requires
        fewer <= more,
    ensures
        IDLE_INTERVAL * (if fewer < 1 {
            1
        } else if fewer > MAX_BACKOFF_MULTIPLIER {
            MAX_BACKOFF_MULTIPLIER
        } else {
            fewer
        }) <= IDLE_INTERVAL * (if more < 1 {
            1
        } else if more > MAX_BACKOFF_MULTIPLIER {
            MAX_BACKOFF_MULTIPLIER
        } else {
            more
        }),
{
}

// ── The worker's loop ──────────────────────────────────────────────────────

/// How the attempt on one track ended, from the worker's point of view.
#[derive(Debug, Clone, Copy, PartialEq, Eq, Structural)]
pub enum Attempt {
    /// The track got an answer — identified, unknown or failed. In every case
    /// the worker moves on to the next one.
    Settled,
    /// The service did not answer. Insisting at once would be harmful.
    ServiceUnavailable,
}

/// What one turn of the loop met.
#[derive(Debug, Clone, Copy, PartialEq, Eq, Structural)]
pub enum Turn {
    /// The library's disk is not mounted.
    LibraryOffline,
    /// No usable AcoustID key.
    NoKey,
    /// The key could not make a client.
    KeyUnusable,
    /// Nothing waits in the queue.
    QueueEmpty,
    /// The queue could not be read.
    QueueUnreadable,
    /// A track was attempted.
    Attempted(Attempt),
}

/// The state the loop carries from turn to turn.
#[derive(Debug, Clone, Copy, PartialEq, Eq, Structural)]
pub struct LoopState {
    pub consecutive_failures: u32,
}

/// The state after a turn, and the pause before the next one.
pub open spec fn turn_outcome(state: LoopState, turn: Turn) -> (LoopState, u64) {
    match turn {
        Turn::Attempted(Attempt::Settled) => (LoopState { consecutive_failures: 0 }, REST_BETWEEN_TRACKS),
        Turn::Attempted(Attempt::ServiceUnavailable) => {
            let failures = if state.consecutive_failures == u32::MAX {
                u32::MAX
            } else {
                (state.consecutive_failures + 1) as u32
            };
            (
                LoopState { consecutive_failures: failures },
                (IDLE_INTERVAL * (if failures > MAX_BACKOFF_MULTIPLIER {
                    MAX_BACKOFF_MULTIPLIER
                } else {
                    failures
                })) as u64,
            )
        },
        _ => (state, IDLE_INTERVAL),
    }
}

/// Decides what follows a turn of the worker's loop: a settled track resets the
/// failure count and rests a little; a service failure sleeps longer each time,
/// up to the ceiling; anything else waits the idle pause.
pub fn after_turn(state: LoopState, turn: Turn) -> (r: (LoopState, u64))
    ensures
        r == turn_outcome(state, turn),
{
    match turn {
        Turn::Attempted(Attempt::Settled) => (LoopState { consecutive_failures: 0 }, REST_BETWEEN_TRACKS),
        Turn::Attempted(Attempt::ServiceUnavailable) => {
            let failures = if state.consecutive_failures == u32::MAX {
                u32::MAX
            } else {
                state.consecutive_failures + 1
            };
            (LoopState { consecutive_failures: failures }, cooldown(failures))
        },
        _ => (state, IDLE_INTERVAL),
    }
}

/// The AcoustID key to use: present and not blank. The key is read again at
/// every turn, so that the user can type it while the application runs.
pub fn usable_key(key: Option<String>) -> (r: Option<String>)
    ensures
        match key {
            Some(k) => if crate::text::trim(k@).len() > 0 {
                r == Some(k)
            } else {
                r is None
            },
            None => r is None,
        },
{
    match key {
        Some(k) => {
            let t = crate::text::trim_chars(crate::text::chars_of(k.as_str()).as_slice());
            if t.len() > 0 {
                Some(k)
            } else {
                None
            }
        },
        None => None,
    }
}

/// Whether the AcoustID client must be made anew: there is none yet, or the
/// key changed.
pub fn needs_new_client(current: Option<&String>, key: &String) -> (r: bool)
    ensures
        r == match current {
            Some(c) => c@ != key@,
            None => true,
        },
{
    match current {
        Some(c) => !(*c == *key),
        None => true,
    }
}

/// How a turn of the loop begins.
#[derive(Debug, Clone, PartialEq, Eq)]
pub enum TurnStart {
    /// The turn ends before any attempt, having met this.
    Stop(Turn),
    /// Make an AcoustID client with this key (the first, or the key changed),
    /// then take the next track; a client that cannot be made ends the turn as
    /// `Turn::KeyUnusable`.
    MakeClient(String),
    /// Take the next track with the current client.
    TakeNext,
}

/// The checks that open a turn, in order: the library's disk must be mounted,
/// then the AcoustID key (read again at every turn) must be usable; the client
/// is made anew when there is none or the key changed. So no identification is
/// attempted while the library is offline or the key is missing or blank.
pub fn begin_turn(library_online: bool, key: Option<String>, current_key: Option<&String>) -> (r:
    TurnStart)
    ensures
        !library_online ==> r == TurnStart::Stop(Turn::LibraryOffline),
        library_online && (key matches Some(k) ==> crate::text::trim(k@).len() == 0) ==> r
            == TurnStart::Stop(Turn::NoKey),
        library_online && (key matches Some(k) && crate::text::trim(k@).len() > 0) ==> match r {
            TurnStart::MakeClient(k2) => k2@ == key->0@ && (current_key matches Some(c) ==> c@
                != key->0@),
            TurnStart::TakeNext => current_key matches Some(c) && c@ == key->0@,
            TurnStart::Stop(_) => false,
        },
{
    if !library_online {
        return TurnStart::Stop(Turn::LibraryOffline);
    }
    match usable_key(key) {
        None => TurnStart::Stop(Turn::NoKey),
        Some(k) => if needs_new_client(current_key, &k) {
            TurnStart::MakeClient(k)
        } else {
            TurnStart::TakeNext
        },
    }
}

/// Once the services answer again, the worker is back to its normal pace; and
/// its pauses never exceed the ceiling.
pub proof fn lemma_turn_pauses(state: LoopState, turn: Turn)
    ensures
        turn == Turn::Attempted(Attempt::Settled) ==> turn_outcome(state, turn).0.consecutive_failures
            == 0,
        turn_outcome(state, turn).1 <= IDLE_INTERVAL * MAX_BACKOFF_MULTIPLIER,
        turn_outcome(state, turn).1 >= REST_BETWEEN_TRACKS,
{
}

/// The loop's state after a series of turns.
pub open spec fn state_after(state: LoopState, turns: Seq<Turn>) -> LoopState
    decreases turns.len(),
{
    if turns.len() == 0 {
        state
    } else {
        turn_outcome(state_after(state, turns.drop_last()), turns.last()).0
    }
}

/// The pause after the last of a series of turns.
pub open spec fn pause_after(state: LoopState, turns: Seq<Turn>) -> u64 {
    turn_outcome(state_after(state, turns.drop_last()), turns.last()).1
}

/// The service failures in a row since the last settled track (`start` counted
/// before the series): other turns neither add nor reset.
pub open spec fn failures_in_a_row(start: nat, turns: Seq<Turn>) -> nat
    decreases turns.len(),
{
    if turns.len() == 0 {
        start
    } else {
        let before = failures_in_a_row(start, turns.drop_last());
        match turns.last() {
            Turn::Attempted(Attempt::Settled) => 0,
            Turn::Attempted(Attempt::ServiceUnavailable) => before + 1,
            _ => before,
        }
    }
}

/// Over any series of turns: the worker counts the service failures in a row
/// since the last settled track (up to `u32::MAX`); after a failure it sleeps
/// the idle pause times that count, at most ten times; after a settled track
/// the count restarts at 0 and it rests `REST_BETWEEN_TRACKS`.
pub proof fn lemma_pauses_over_turns(state: LoopState, turns: Seq<Turn>)
    ensures
        state_after(state, turns).consecutive_failures == (if failures_in_a_row(
            state.consecutive_failures as nat,
            turns,
        ) > u32::MAX {
            u32::MAX as nat
        } else {
            failures_in_a_row(state.consecutive_failures as nat, turns)
        }),
        turns.len() > 0 && turns.last() == Turn::Attempted(Attempt::ServiceUnavailable) ==> {
            let k = failures_in_a_row(state.consecutive_failures as nat, turns);
            &&& k >= 1
            &&& pause_after(state, turns) == IDLE_INTERVAL * (if k > MAX_BACKOFF_MULTIPLIER {
                MAX_BACKOFF_MULTIPLIER as nat
            } else {
                k
            })
        },
        turns.len() > 0 && turns.last() == Turn::Attempted(Attempt::Settled) ==> pause_after(
            state,
            turns,
        ) == REST_BETWEEN_TRACKS && state_after(state, turns).consecutive_failures == 0,
    decreases turns.len(),
{
    if turns.len() > 0 {
        lemma_pauses_over_turns(state, turns.drop_last());
    }
}

// ── Identifying one track ──────────────────────────────────────────────────

/// Where the identification of a track stands.
#[derive(Debug, Clone, Copy, PartialEq, Eq, Structural)]
pub enum Stage {
    /// Computing the acoustic fingerprint.
    Fingerprint,
    /// Asking AcoustID which recording it is.
    AcoustId,
    /// Asking MusicBrainz for the recording's metadata.
    MusicBrainz,
    /// Judging whether the record describes this file.
    Judge,
    /// Fetching the cover (optional).
    Cover,
    /// Writing the identification to the file and the database.
    Apply,
    /// Searching by the file name, the fingerprint being unknown.
    SearchByName,
    /// Trying the name search's hits, most relevant first.
    TryHit,
}

/// What a stage's outside work reported.
#[derive(Debug, Clone, PartialEq, Eq)]
pub enum Report {
    /// The work succeeded.
    Done,
    /// The service had nothing for this track.
    Unknown,
    /// The service failed (network, overload, invalid key), with its error.
    ServiceFailed(String),
    /// The work failed locally (unreadable file, write error).
    Failed,
    /// The judge refused the record, with its reason.
    Rejected(String),
    /// The name search has no hit left to try.
    NoMoreHits,
}

/// The state a track is marked with.
#[derive(Debug, Clone, PartialEq, Eq)]
pub enum Mark {
    Failed,
    NotFound,
    /// Refused by the judge, with its reason: final, the same fingerprint would
    /// give the same answer tomorrow.
    Rejected(String),
}

/// What to do next.
#[derive(Debug, Clone, PartialEq, Eq)]
pub enum Next {
    /// Go on with this stage.
    Go(Stage),
    /// Stop: mark the track (or leave it pending), clear the last service error
    /// or record a new one (its text), and report the attempt.
    Stop { mark: Option<Mark>, clear_error: bool, record_error: Option<String>, attempt: Attempt },
}

/// `Report` as plain values.
pub enum ReportView {
    Done,
    Unknown,
    ServiceFailed(Seq<char>),
    Failed,
    Rejected(Seq<char>),
    NoMoreHits,
}

/// `Mark` as plain values.
pub enum MarkView {
    Failed,
    NotFound,
    Rejected(Seq<char>),
}

/// `Next` as plain values.
pub enum NextView {
    Go(Stage),
    Stop { mark: Option<MarkView>, clear_error: bool, record_error: Option<Seq<char>>, attempt: Attempt },
}

pub open spec fn report_view(r: Report) -> ReportView {
    match r {
        Report::Done => ReportView::Done,
        Report::Unknown => ReportView::Unknown,
        Report::ServiceFailed(e) => ReportView::ServiceFailed(e@),
        Report::Failed => ReportView::Failed,
        Report::Rejected(n) => ReportView::Rejected(n@),
        Report::NoMoreHits => ReportView::NoMoreHits,
    }
}

pub open spec fn mark_view(m: Mark) -> MarkView {
    match m {
        Mark::Failed => MarkView::Failed,
        Mark::NotFound => MarkView::NotFound,
        Mark::Rejected(n) => MarkView::Rejected(n@),
    }
}

pub open spec fn next_view(n: Next) -> NextView {
    match n {
        Next::Go(s) => NextView::Go(s),
        Next::Stop { mark, clear_error, record_error, attempt } => NextView::Stop {
            mark: match mark {
                Some(m) => Some(mark_view(m)),
                None => None,
            },
            clear_error,
            record_error: match record_error {
                Some(e) => Some(e@),
                None => None,
            },
            attempt,
        },
    }
}

/// The service a network stage asks.
pub open spec fn service_name(stage: Stage) -> Seq<char> {
    if stage == Stage::AcoustId {
        "AcoustID"@
    } else {
        "MusicBrainz"@
    }
}

/// A service failure leaves the track pending, records the error — « AcoustID —
/// … » or « MusicBrainz — … » — and puts the worker to sleep.
pub open spec fn unavailable(stage: Stage, error: Seq<char>) -> NextView {
    NextView::Stop {
        mark: None,
        clear_error: false,
        record_error: Some(service_name(stage) + " — "@ + error),
        attempt: Attempt::ServiceUnavailable,
    }
}

/// The track is settled with a mark.
pub open spec fn settle(mark: Option<MarkView>, clear_error: bool) -> NextView {
    NextView::Stop { mark, clear_error, record_error: None, attempt: Attempt::Settled }
}

/// The identification of one track, from the fingerprint to the filing.
///
/// A fingerprint unknown to AcoustID falls back on the file name, submitted to
/// the **same judge**. A refusal is final, and the track keeps the judge's
/// reason. A service failure keeps the track in the queue.
pub open spec fn next_spec(stage: Stage, report: ReportView) -> NextView {
    match (stage, report) {
        (Stage::Fingerprint, ReportView::Done) => NextView::Go(Stage::AcoustId),
        (Stage::Fingerprint, _) => settle(Some(MarkView::Failed), false),
        (Stage::AcoustId, ReportView::Done) => NextView::Go(Stage::MusicBrainz),
        (Stage::AcoustId, ReportView::Unknown) => NextView::Go(Stage::SearchByName),
        (Stage::AcoustId, ReportView::ServiceFailed(e)) => unavailable(stage, e),
        (Stage::AcoustId, _) => unavailable(stage, Seq::empty()),
        (Stage::MusicBrainz, ReportView::Done) => NextView::Go(Stage::Judge),
        (Stage::MusicBrainz, ReportView::Unknown) => settle(Some(MarkView::NotFound), false),
        (Stage::MusicBrainz, ReportView::ServiceFailed(e)) => unavailable(stage, e),
        (Stage::MusicBrainz, _) => unavailable(stage, Seq::empty()),
        (Stage::Judge, ReportView::Done) => NextView::Go(Stage::Cover),
        (Stage::Judge, ReportView::Rejected(note)) => settle(Some(MarkView::Rejected(note)), true),
        (Stage::Judge, _) => settle(Some(MarkView::Rejected(Seq::empty())), true),
        (Stage::Cover, _) => NextView::Go(Stage::Apply),
        (Stage::Apply, ReportView::Done) => settle(None, true),
        (Stage::Apply, _) => settle(Some(MarkView::Failed), false),
        (Stage::SearchByName, ReportView::Done) => NextView::Go(Stage::TryHit),
        (Stage::SearchByName, ReportView::ServiceFailed(e)) => unavailable(stage, e),
        (Stage::SearchByName, _) => settle(Some(MarkView::NotFound), false),
        (Stage::TryHit, ReportView::Done) => settle(None, true),
        (Stage::TryHit, ReportView::Rejected(_)) => NextView::Go(Stage::TryHit),
        (Stage::TryHit, ReportView::Unknown) => NextView::Go(Stage::TryHit),
        (Stage::TryHit, _) => settle(Some(MarkView::NotFound), true),
    }
}

/// « AcoustID — error » or « MusicBrainz — error ».
fn service_error(stage: Stage, error: &str) -> (r: String)
    ensures
        r@ == service_name(stage) + " — "@ + error@,
{
    let mut out: Vec<char> = Vec::new();
    if stage == Stage::AcoustId {
        push_str(&mut out, "AcoustID");
    } else {
        push_str(&mut out, "MusicBrainz");
    }
    push_str(&mut out, " — ");
    push_str(&mut out, error);
    string_from(out.as_slice())
}

/// A stop on a service failure.
fn unavailable_after(stage: Stage, error: &str) -> (r: Next)
    ensures
        next_view(r) == unavailable(stage, error@),
{
    Next::Stop {
        mark: None,
        clear_error: false,
        record_error: Some(service_error(stage, error)),
        attempt: Attempt::ServiceUnavailable,
    }
}

/// A stop that settles the track.
fn settled(mark: Option<Mark>, clear_error: bool) -> (r: Next)
    ensures
        next_view(r) == settle(
            match mark {
                Some(m) => Some(mark_view(m)),
                None => None,
            },
            clear_error,
        ),
{
    Next::Stop { mark, clear_error, record_error: None, attempt: Attempt::Settled }
}

/// Decides what follows a stage of the identification of one track.
pub fn next_stage(stage: Stage, report: Report) -> (r: Next)
    ensures
        next_view(r) == next_spec(stage, report_view(report)),
{
    proof {
        reveal_strlit("");
    }
    match stage {
        Stage::Fingerprint => match report {
            Report::Done => Next::Go(Stage::AcoustId),
            _ => settled(Some(Mark::Failed), false),
        },
        Stage::AcoustId | Stage::MusicBrainz => match report {
            Report::Done => if stage == Stage::AcoustId {
                Next::Go(Stage::MusicBrainz)
            } else {
                Next::Go(Stage::Judge)
            },
            Report::Unknown => if stage == Stage::AcoustId {
                Next::Go(Stage::SearchByName)
            } else {
                settled(Some(Mark::NotFound), false)
            },
            Report::ServiceFailed(e) => unavailable_after(stage, e.as_str()),
            _ => unavailable_after(stage, ""),
        },
        Stage::Judge => match report {
            Report::Done => Next::Go(Stage::Cover),
            Report::Rejected(note) => settled(Some(Mark::Rejected(note)), true),
            _ => settled(Some(Mark::Rejected(String::new())), true),
        },
        Stage::Cover => Next::Go(Stage::Apply),
        Stage::Apply => match report {
            Report::Done => settled(None, true),
            _ => settled(Some(Mark::Failed), false),
        },
        Stage::SearchByName => match report {
            Report::Done => Next::Go(Stage::TryHit),
            Report::ServiceFailed(e) => unavailable_after(stage, e.as_str()),
            _ => settled(Some(Mark::NotFound), false),
        },
        Stage::TryHit => match report {
            Report::Done => settled(None, true),
            Report::Rejected(_) | Report::Unknown => Next::Go(Stage::TryHit),
            _ => settled(Some(Mark::NotFound), true),
        },
    }
}

/// Only the services asked over the network can leave a track pending and put
/// the worker to sleep, and their failure always does, recording its error
/// under the service's name; everything else settles the track — a refusal
/// included, which is final and keeps the judge's reason.
pub proof fn lemma_only_services_keep_tracks_pending(stage: Stage, report: ReportView)
    ensures
        next_spec(stage, report) matches NextView::Stop { mark, attempt, .. } ==> (attempt
            == Attempt::ServiceUnavailable ==> mark is None && (stage == Stage::AcoustId || stage
            == Stage::MusicBrainz || stage == Stage::SearchByName)),
        report matches ReportView::ServiceFailed(e) && (stage == Stage::AcoustId || stage
            == Stage::MusicBrainz || stage == Stage::SearchByName) ==> next_spec(stage, report)
            == unavailable(stage, report->ServiceFailed_0),
        report matches ReportView::Rejected(note) && stage == Stage::Judge ==> next_spec(stage, report)
            == settle(Some(MarkView::Rejected(report->Rejected_0)), true),
        stage == Stage::Judge && report !is Done ==> next_spec(stage, report) matches NextView::Stop {
            mark: Some(MarkView::Rejected(_)),
            attempt: Attempt::Settled,
            ..
        },
{
}

} // verus!
