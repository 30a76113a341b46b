//! Acoustic fingerprints (Chromaprint): computed from the decoded samples by
//! `rusty-chromaprint`, which must match the reference implementation bit for
//! bit — AcoustID would otherwise never return a match, silently — then
//! compressed and encoded for the query string. Decoding the file belongs to
//! the application.
use vstd::prelude::*;

use crate::library::artwork::{base64, base64_encode};

verus! {

/// A fingerprint ready to be sent.
#[derive(Debug, Clone)]
pub struct Fingerprint {
    /// Compressed fingerprint, encoded in URL base64, without padding.
    pub encoded: String,
    /// **Total** duration of the track, in seconds.
    pub duration_seconds: u32,
}

/// URL base64 without padding: AcoustID requires this exact variant, since `+`
/// and `/` would be reinterpreted in a query string.
pub fn base64_url_encode(input: &[u8]) -> (r: String)
    ensures
        r@ == base64(input@, true),
{
    base64_encode(input, true)
}

/// The sample rate Chromaprint's AcoustID preset works at, in hertz: the
/// samples handed to `fingerprint_samples` are decoded at this rate, mono.
pub const FINGERPRINT_SAMPLE_RATE: u32 = 11_025;

/// The compressed form AcoustID expects of a raw fingerprint (`test2` preset).
pub uninterp spec fn compressed_of(raw: Seq<u32>) -> Seq<u8>;

/// The rate below which, inclusive, `AudioProcessor::reset` refuses to
/// resample (`MIN_SAMPLE_RATE`), in hertz.
pub const CHROMAPRINT_MIN_RATE: u32 = 1_000;

/// `Fingerprinter` with `Configuration::preset_test2()`, the algorithm AcoustID
/// uses, in its one-shot use: `new`, `start` at the rate with one channel,
/// `consume` of all the samples, `finish`, then `fingerprint`. `start` refuses a
/// rate of at most `CHROMAPRINT_MIN_RATE` (and whatever the resampler refuses),
/// and its error's text is handed back. Which fingerprint comes out is left
/// open: the transform underneath picks its vector code on the machine it runs
/// on, so its rounding is not a function of the samples alone.
#[verifier::external_body]
fn chromaprint(sample_rate: u32, samples: &[i16]) -> (r: Result<Vec<u32>, String>)
    ensures
        sample_rate <= CHROMAPRINT_MIN_RATE ==> r is Err,
{
    let config = rusty_chromaprint::Configuration::preset_test2();
    let mut printer = rusty_chromaprint::Fingerprinter::new(&config);
    match printer.start(sample_rate, 1) {
        Ok(()) => {},
        Err(error) => return Err(format!("{error}")),
    }
    printer.consume(samples);
    printer.finish();
    Ok(printer.fingerprint().to_vec())
}

/// `FingerprintCompressor::compress` for the `test2` preset: the fingerprint in
/// the compressed form AcoustID expects.
#[verifier::external_body]
fn compress(raw: &[u32]) -> (r: Vec<u8>)
    ensures
        r@ == compressed_of(raw@),
{
    let config = rusty_chromaprint::Configuration::preset_test2();
    rusty_chromaprint::FingerprintCompressor::from(&config).compress(raw)
}

/// Why no fingerprint could be computed.
#[derive(Debug, Clone, PartialEq, Eq)]
pub enum FingerprintError {
    /// No sample to fingerprint.
    NoSamples,
    /// The fingerprinter refused the samples' rate; its message.
    Unusable(String),
    /// The fingerprint came out empty: an excerpt too short, or silent.
    Empty,
}

impl FingerprintError {
    /// The message shown for the error.
    pub fn message(&self) -> (r: String)
        ensures
            *self == FingerprintError::NoSamples ==> r@ == "aucun échantillon à empreindre"@,
            self matches FingerprintError::Unusable(m) ==> r@ == "empreinte impossible : "@ + m@,
            *self == FingerprintError::Empty ==> r@ == "empreinte vide — extrait trop court ou silencieux"@,
    {
        match self {
            FingerprintError::NoSamples => "aucun échantillon à empreindre".to_string(),
            FingerprintError::Unusable(m) => {
                let mut out: Vec<char> = Vec::new();
                crate::text::push_str(&mut out, "empreinte impossible : ");
                crate::text::push_str(&mut out, m.as_str());
                crate::text::string_from(out.as_slice())
            },
            FingerprintError::Empty => "empreinte vide — extrait trop court ou silencieux".to_string(),
        }
    }
}

/// What is sent of a raw fingerprint: it compressed (`test2` preset) and
/// encoded in URL base64, with the track's **total** duration in seconds, which
/// AcoustID uses to tell apart two recordings whose first minutes sound alike.
/// An empty raw fingerprint (an excerpt too short, or silent) gives `Empty`.
pub fn fingerprint_of_raw(raw: &[u32], duration_seconds: u32) -> (r: Result<
    Fingerprint,
    FingerprintError,
>)
    ensures
        raw@.len() == 0 ==> r == Err::<Fingerprint, FingerprintError>(FingerprintError::Empty),
        raw@.len() > 0 ==> (r matches Ok(f) && f.encoded@ == base64(compressed_of(raw@), true)
            && f.duration_seconds == duration_seconds),
{
    if raw.len() == 0 {
        return Err(FingerprintError::Empty);
    }
    let packed = compress(raw);
    Ok(Fingerprint { encoded: base64_url_encode(packed.as_slice()), duration_seconds })
}

/// The fingerprint of a track from its decoded samples (mono, 16 bits, at
/// `sample_rate`; the first two minutes are what AcoustID indexes) and its
/// total duration: the fingerprinter's raw fingerprint, handed to
/// [`fingerprint_of_raw`]. No samples give `NoSamples`; a rate the fingerprinter
/// refuses gives `Unusable` with its message.
pub fn fingerprint_samples(sample_rate: u32, samples: &[i16], duration_seconds: u32) -> (r: Result<
    Fingerprint,
    FingerprintError,
>)
    ensures
        samples@.len() == 0 ==> r == Err::<Fingerprint, FingerprintError>(FingerprintError::NoSamples),
        samples@.len() > 0 && sample_rate <= CHROMAPRINT_MIN_RATE ==> r matches Err(
            FingerprintError::Unusable(_),
        ),
        samples@.len() > 0 ==> (r is Err ==> r->Err_0 !is NoSamples),
        r matches Ok(f) ==> f.duration_seconds == duration_seconds && exists|raw: Seq<u32>|
            raw.len() > 0 && f.encoded@ == base64(compressed_of(raw), true),
{
    if samples.len() == 0 {
        return Err(FingerprintError::NoSamples);
    }
    let raw = match chromaprint(sample_rate, samples) {
        Ok(raw) => raw,
        Err(message) => return Err(FingerprintError::Unusable(message)),
    };
    fingerprint_of_raw(raw.as_slice(), duration_seconds)
}

} // verus!
