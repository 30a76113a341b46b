//! The playback loop's decisions: at each tick, what to tell the interface and
//! the operating system's media session. Reading the player and sending the
//! events belong to the application.
use vstd::prelude::*;

verus! {

/// Interval between two ticks of the playback loop, in milliseconds.
pub const PLAYBACK_TICK_MS: i64 = 250;

/// Gap between the position heard and the one expected from the time alone
/// beyond which the listener moved in the track, in milliseconds.
pub const MIN_JUMP_MS: i64 = 1_500;

/// What the interface last received.
#[derive(Debug, Clone, Copy, PartialEq, Eq, Structural)]
pub struct Tick {
    pub position_ms: i64,
    pub is_playing: bool,
}

/// What the loop remembers between two ticks.
#[derive(Debug, Clone, Copy, PartialEq, Eq, Structural)]
pub struct PlaybackState {
    /// The track the media session was last given.
    pub published_track: Option<i64>,
    /// The position the media session last learnt; −1 before any.
    pub published_position: i64,
    /// What the interface last received.
    pub last_tick: Tick,
}

/// What to do at a tick.
#[derive(Debug, Clone, Copy, PartialEq, Eq, Structural)]
pub struct TickAction {
    /// Give the media session the current track: it changed (whatever made it
    /// change — a command, the end of a track, a jump in the queue), or the
    /// listener moved in it, which the session's own clock cannot know.
    pub publish_track: bool,
    /// Give the media session the play or pause state, which changed.
    pub publish_state: bool,
    /// Send the tick to the interface: position or play state changed.
    pub emit_tick: bool,
}

/// The state before the first tick.
pub open spec fn initial() -> PlaybackState {
    PlaybackState {
        published_track: None,
        published_position: -1i64,
        last_tick: Tick { position_ms: -1i64, is_playing: false },
    }
}

/// Did the listener move in the track? The position differs by more than
/// `MIN_JUMP_MS` from the one published a tick ago, advanced by a tick.
pub open spec fn jumped(published_position: int, position: int) -> bool {
    published_position >= 0 && {
        let gap = position - (published_position + PLAYBACK_TICK_MS);
        gap > MIN_JUMP_MS || -gap > MIN_JUMP_MS
    }
}

/// The decisions of a tick, and the state after it.
pub open spec fn tick_outcome(state: PlaybackState, track: Option<i64>, position: i64, playing: bool) -> (
    PlaybackState,
    TickAction,
) {
    let publish_track = track != state.published_track || jumped(
        state.published_position as int,
        position as int,
    );
    let changed = position != state.last_tick.position_ms || playing != state.last_tick.is_playing;
    (
        PlaybackState {
            published_track: if publish_track {
                track
            } else {
                state.published_track
            },
            published_position: position,
            last_tick: if changed {
                Tick { position_ms: position, is_playing: playing }
            } else {
                state.last_tick
            },
        },
        TickAction {
            publish_track,
            publish_state: changed && playing != state.last_tick.is_playing,
            emit_tick: changed,
        },
    )
}

/// The state before the first tick.
pub fn initial_state() -> (r: PlaybackState)
    ensures
        r == initial(),
{
    PlaybackState {
        published_track: None,
        published_position: -1,
        last_tick: Tick { position_ms: -1, is_playing: false },
    }
}

/// Decides a tick of the playback loop, from the track the player holds, its
/// position and whether it plays.
pub fn after_tick(state: PlaybackState, track: Option<i64>, position: i64, playing: bool) -> (r: (
    PlaybackState,
    TickAction,
))
    ensures
        r == tick_outcome(state, track, position, playing),
{
    let gap: i128 = position as i128 - (state.published_position as i128 + PLAYBACK_TICK_MS as i128);
    let jumped = state.published_position >= 0 && (gap > MIN_JUMP_MS as i128 || -gap
        > MIN_JUMP_MS as i128);
    let publish_track = track != state.published_track || jumped;
    let changed = position != state.last_tick.position_ms || playing != state.last_tick.is_playing;
    (
        PlaybackState {
            published_track: if publish_track {
                track
            } else {
                state.published_track
            },
            published_position: position,
            last_tick: if changed {
                Tick { position_ms: position, is_playing: playing }
            } else {
                state.last_tick
            },
        },
        TickAction {
            publish_track,
            publish_state: changed && playing != state.last_tick.is_playing,
            emit_tick: changed,
        },
    )
}

/// A steady playback that only moves with time publishes nothing to the media
/// session; a change of track, or a jump in it, always does; and the interface
/// hears of every change of position or play state.
pub proof fn lemma_publishes_what_changed(
    state: PlaybackState,
    track: Option<i64>,
    position: i64,
    playing: bool,
)
    ensures
        (state.published_track == track && state.published_position >= 0 && position
            == state.published_position + PLAYBACK_TICK_MS && state.last_tick.is_playing == playing)
            ==> !tick_outcome(state, track, position, playing).1.publish_track
            && !tick_outcome(state, track, position, playing).1.publish_state,
        (track != state.published_track || jumped(state.published_position as int, position as int))
            ==> tick_outcome(state, track, position, playing).1.publish_track,
        tick_outcome(state, track, position, playing).1.emit_tick <==> (position
            != state.last_tick.position_ms || playing != state.last_tick.is_playing),
{
}

} // verus!
