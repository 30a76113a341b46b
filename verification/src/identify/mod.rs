pub mod acoustid;
pub mod catalog;
pub mod coverart;
pub mod deezer;
pub mod discover;
pub mod fingerprint;
pub mod http;
pub mod itunes;
pub mod lrclib;
pub mod musicbrainz;
pub mod ratelimit;
pub mod revise;
pub mod spotdl;
pub mod spotify;
pub mod tagger;
pub mod verdict;
pub mod worker;
