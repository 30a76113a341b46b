//! The local import API's decisions: who may call it, what a request must be
//! to be served, and what it is answered. Listening on the loopback, the
//! routes and the JSON belong to the application.
//!
//! | Route | Role |
//! |---|---|
//! | `GET /api/v1/health` | Is the application running, is the library online? |
//! | `GET /api/v1/exists` | **Do I already have this track?** Asked *before* downloading |
//! | `POST /api/v1/import` | Here is a file, file it |
use vstd::prelude::*;

use crate::ingest::token::constant_time_eq;
use crate::library::importer::{is_importable, ImportOutcome};
use crate::library::metadata::opt_str;
use crate::library::naming::{key_of, normalize_key};
use crate::text::{chars_of, slice_chars, starts_with, string_from, trim, trim_chars};

verus! {

/// Listening port, high in the ephemeral range so as to disturb nothing.
pub const DEFAULT_PORT: u16 = 47811;

/// An error of the API: its HTTP status and its message, sent as JSON so that a
/// script can read it.
#[derive(Debug, Clone, PartialEq, Eq)]
pub struct ApiError {
    pub status: u16,
    pub message: String,
}

/// The token a request carries: what follows `Bearer ` in its `Authorization`
/// header, trimmed; nothing without one.
pub open spec fn presented(header: Option<Seq<char>>) -> Seq<char> {
    match header {
        Some(h) => if h.len() >= 7 && h.take(7) == "Bearer "@ {
            trim(h.skip(7))
        } else {
            Seq::<char>::empty()
        },
        None => Seq::<char>::empty(),
    }
}

/// Checks the `Authorization: Bearer <token>` header (its value, when it is
/// readable text). Listening on 127.0.0.1 protects from nothing by itself: any
/// application of the machine can reach the port. The comparison takes the
/// same time whatever the token.
pub fn authorize(header: Option<&str>, expected: &str) -> (r: Result<(), ApiError>)
    ensures
        r is Ok <==> presented(opt_str(header)) == expected@,
        r matches Err(e) ==> e.status == 401 && e.message@ == "jeton absent ou invalide"@,
{
    let bearer: &str = "Bearer ";
    let provided: Vec<char> = match header {
        Some(h) => {
            let v = chars_of(h);
            let b = chars_of(bearer);
            proof {
                reveal_strlit("Bearer ");
            }
            if starts_with(v.as_slice(), b.as_slice()) {
                assert(v@.subrange(0, 7) =~= b@);
                assert(v@.take(7) =~= "Bearer "@);
                let rest = slice_chars(v.as_slice(), 7, v.len());
                assert(rest@ =~= v@.skip(7));
                trim_chars(rest.as_slice())
            } else {
                proof {
                    if v@.len() >= 7 && v@.take(7) == "Bearer "@ {
                        assert(v@.subrange(0, 7) =~= b@);
                    }
                }
                Vec::new()
            }
        },
        None => Vec::new(),
    };
    let presented_token = string_from(provided.as_slice());
    if constant_time_eq(presented_token.as_str(), expected) {
        Ok(())
    } else {
        Err(ApiError { status: 401, message: "jeton absent ou invalide".to_string() })
    }
}

/// The keys an `exists` question is looked up by: the normalized title,
/// required, and the normalized artist when given.
pub fn exists_keys(title: &str, artist: Option<&str>) -> (r: Result<(String, Option<String>), ApiError>)
    ensures
        match r {
            Ok((t, a)) => key_of(title@).len() > 0 && t@ == key_of(title@) && match artist {
                Some(x) => a matches Some(k) && k@ == key_of(x@),
                None => a is None,
            },
            Err(e) => key_of(title@).len() == 0 && e.status == 400 && e.message@
                == "le titre est obligatoire"@,
        },
{
    let t = normalize_key(title);
    if chars_of(t.as_str()).len() == 0 {
        return Err(ApiError { status: 400, message: "le titre est obligatoire".to_string() });
    }
    let a = match artist {
        Some(x) => Some(normalize_key(x)),
        None => None,
    };
    Ok((t, a))
}

/// What a file handed to `import` must be, checked in this order: an absolute
/// path, an existing file, an audio extension, a library that is online.
pub fn check_import(absolute: bool, is_file: bool, file_name: Option<&str>, library_online: bool) -> (r: Result<
    (),
    ApiError,
>)
    ensures
        r is Ok <==> (absolute && is_file && crate::library::importer::importable(opt_str(file_name))
            && library_online),
        !absolute ==> (r matches Err(e) && e.status == 400 && e.message@ == "le chemin doit être absolu"@),
        absolute && !is_file ==> (r matches Err(e) && e.status == 404 && e.message@ == "fichier introuvable"@),
        absolute && is_file && !crate::library::importer::importable(opt_str(file_name)) ==> (r matches Err(e)
            && e.status == 415 && e.message@ == "extension audio non reconnue"@),
        absolute && is_file && crate::library::importer::importable(opt_str(file_name)) && !library_online
            ==> (r matches Err(e) && e.status == 503 && e.message@
            == "bibliothèque hors ligne — volume non monté"@),
{
    if !absolute {
        return Err(ApiError { status: 400, message: "le chemin doit être absolu".to_string() });
    }
    if !is_file {
        return Err(ApiError { status: 404, message: "fichier introuvable".to_string() });
    }
    if !is_importable(file_name) {
        return Err(ApiError { status: 415, message: "extension audio non reconnue".to_string() });
    }
    if !library_online {
        return Err(ApiError {
            status: 503,
            message: "bibliothèque hors ligne — volume non monté".to_string(),
        });
    }
    Ok(())
}

/// The answer to an `import`.
#[derive(Debug, Clone, PartialEq, Eq)]
pub struct ImportResponse {
    /// `imported`, `duplicate` or `restored`.
    pub outcome: &'static str,
    pub track_id: i64,
    /// Where the file was filed; none for a duplicate.
    pub relative_path: Option<String>,
    /// Why, for a duplicate or a restored track.
    pub reason: Option<&'static str>,
}

/// The answer to an import's outcome.
pub fn import_response(outcome: ImportOutcome) -> (r: ImportResponse)
    ensures
        match outcome {
            ImportOutcome::Imported { track_id, relative_path } => r.outcome@ == "imported"@ && r.track_id
                == track_id && r.relative_path == Some(relative_path) && r.reason is None,
            ImportOutcome::Duplicate { existing_id, reason } => r.outcome@ == "duplicate"@ && r.track_id
                == existing_id && r.relative_path is None && r.reason == Some(reason),
            ImportOutcome::Restored { track_id, relative_path } => r.outcome@ == "restored"@ && r.track_id
                == track_id && r.relative_path == Some(relative_path) && (r.reason matches Some(m) && m@
                == "le morceau avait perdu son fichier"@),
        },
{
    match outcome {
        ImportOutcome::Imported { track_id, relative_path } => ImportResponse {
            outcome: "imported",
            track_id,
            relative_path: Some(relative_path),
            reason: None,
        },
        ImportOutcome::Duplicate { existing_id, reason } => ImportResponse {
            outcome: "duplicate",
            track_id: existing_id,
            relative_path: None,
            reason: Some(reason),
        },
        ImportOutcome::Restored { track_id, relative_path } => ImportResponse {
            outcome: "restored",
            track_id,
            relative_path: Some(relative_path),
            reason: Some("le morceau avait perdu son fichier"),
        },
    }
}

} // verus!
