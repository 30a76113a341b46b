pub mod align;
pub mod artwork;
pub mod hash;
pub mod audio_hash;
pub mod importer;
pub mod lyrics;
pub mod metadata;
pub mod naming;
pub mod rebuild;
pub mod repair;
pub mod scanner;
pub mod transcribe;
pub mod sidecar;
