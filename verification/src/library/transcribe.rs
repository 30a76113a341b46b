//! Having a track heard by a local model.
//!
//! `whisper.cpp` runs on the user's machine, on a model on their disk: nothing
//! leaves for the network. Finding the tools and running them belongs to the
//! application; what is decided with their results is here.
use vstd::prelude::*;

use crate::library::align::HeardWord;
use crate::text::{chars_of, push_str, string_from, trim, trim_chars};

verus! {

/// Name of the setting that keeps the model's path.
pub const MODEL_SETTING: &'static str = "whisper_model";

/// Signature put on the lyrics the model guessed. The `.lrc` format provides
/// for such metadata between brackets; the lyrics parser ignores them and other
/// players show them as a header.
pub const SIGNATURE: &'static str = "[by:Onzer — transcription automatique]";

/// What it takes to transcribe: the two programs and the model, by path.
#[derive(Debug, Clone)]
pub struct Transcriber {
    whisper: String,
    ffmpeg: String,
    model: String,
}

/// Why transcription is not available: a message that says **what to
/// install** is worth more than a greyed-out button.
#[derive(Debug, Clone, Copy, PartialEq, Eq, Structural)]
pub struct Missing {
    pub whisper: bool,
    pub ffmpeg: bool,
    pub model: bool,
}

impl Transcriber {
    /// The three paths: program, converter, model.
    pub closed spec fn paths(&self) -> (Seq<char>, Seq<char>, Seq<char>) {
        (self.whisper@, self.ffmpeg@, self.model@)
    }

    /// Gathers the three pieces found, or says which ones are missing.
    pub fn detect(whisper: Option<String>, ffmpeg: Option<String>, model: Option<String>) -> (r: Result<
        Transcriber,
        Missing,
    >)
        ensures
            match r {
                Ok(t) => whisper matches Some(w) && ffmpeg matches Some(f) && model matches Some(m)
                    && t.paths() == (w@, f@, m@),
                Err(m) => (whisper is None || ffmpeg is None || model is None) && m == (Missing {
                    whisper: whisper is None,
                    ffmpeg: ffmpeg is None,
                    model: model is None,
                }),
            },
    {
        match (whisper, ffmpeg, model) {
            (Some(whisper), Some(ffmpeg), Some(model)) => Ok(Transcriber { whisper, ffmpeg, model }),
            (whisper, ffmpeg, model) => Err(
                Missing {
                    whisper: whisper.is_none(),
                    ffmpeg: ffmpeg.is_none(),
                    model: model.is_none(),
                },
            ),
        }
    }

    /// The `whisper.cpp` program.
    pub fn whisper(&self) -> (r: &str)
        ensures
            r@ == self.paths().0,
    {
        self.whisper.as_str()
    }

    /// The `ffmpeg` program.
    pub fn ffmpeg(&self) -> (r: &str)
        ensures
            r@ == self.paths().1,
    {
        self.ffmpeg.as_str()
    }

    /// The model.
    pub fn model(&self) -> (r: &str)
        ensures
            r@ == self.paths().2,
    {
        self.model.as_str()
    }
}

/// The timed words of a transcription: the segments whose text is not blank,
/// trimmed, at the instant where they start.
pub open spec fn heard_words(segments: Seq<(i64, String)>) -> Seq<(i64, Seq<char>)>
    decreases segments.len(),
{
    if segments.len() == 0 {
        seq![]
    } else {
        let earlier = heard_words(segments.drop_last());
        let (at, text) = segments.last();
        if trim(text@).len() > 0 {
            earlier.push((at, trim(text@)))
        } else {
            earlier
        }
    }
}

/// Keeps the words of a transcription, as `(start in ms, text)` segments.
pub fn words_of_segments(segments: &[(i64, String)]) -> (r: Vec<HeardWord>)
    ensures
        crate::library::align::heard_views(r@) == heard_words(segments@),
{
    let mut words: Vec<HeardWord> = Vec::new();
    let mut i: usize = 0;
    assert(crate::library::align::heard_views(words@) =~= Seq::<(i64, Seq<char>)>::empty());
    while i < segments.len()
        invariant
            i <= segments@.len(),
            crate::library::align::heard_views(words@) == heard_words(segments@.take(i as int)),
        decreases segments@.len() - i,
    {
        assert(segments@.take(i + 1).drop_last() =~= segments@.take(i as int));
        let text = trim_chars(chars_of(segments[i].1.as_str()).as_slice());
        if text.len() > 0 {
            let ghost before = crate::library::align::heard_views(words@);
            words.push(HeardWord { at_ms: segments[i].0, text: string_from(text.as_slice()) });
            assert(crate::library::align::heard_views(words@) =~= before.push(
                (segments@[i as int].0, text@),
            ));
        }
        i = i + 1;
    }
    assert(segments@.take(i as int) =~= segments@);
    words
}

/// A transcription written as `.lrc` by the model, signed: `None` when it is
/// blank. These lyrics are **guessed**; the signature says where they come
/// from.
pub fn signed_lyrics(lrc: &str) -> (r: Option<String>)
    ensures
        match r {
            Some(s) => trim(lrc@).len() > 0 && s@ == SIGNATURE@ + seq!['\n'] + trim(lrc@),
            None => trim(lrc@).len() == 0,
        },
{
    let body = trim_chars(chars_of(lrc).as_slice());
    if body.len() == 0 {
        return None;
    }
    let mut out: Vec<char> = Vec::new();
    push_str(&mut out, SIGNATURE);
    out.push('\n');
    crate::text::push_all(&mut out, body.as_slice());
    assert(out@ =~= SIGNATURE@ + seq!['\n'] + body@);
    Some(string_from(out.as_slice()))
}

} // verus!
