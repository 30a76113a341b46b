//! Onzer: the logic of a local, offline music library — filing and naming,
//! lyrics analysis and alignment, and the corroboration rules of track
//! identification.
use vstd::prelude::*;

pub mod identify;
pub mod ingest;
pub mod library;
pub mod playback;
pub mod text;
pub mod unicode;

verus! {

} // verus!
