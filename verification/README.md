# Onzer

The logic of a local music library: filing and naming tracks, telling
duplicates apart, reading tags and lyrics, identifying recordings by their
acoustic fingerprint and judging the match, and watching a drop folder — each
function stated by a contract and proved with Verus.

## Layout

- `src/` — the verified library.
  - `library/` — the collection on disk: metadata and featurings, file names
    and filing paths, content and audio fingerprints, covers, lyrics (LRC) and
    their alignment with a transcription, import decisions, scans, repairs.
  - `identify/` — identification: AcoustID and MusicBrainz, the verdict that
    confronts a match with the file's own tags, the catalogues, covers,
    lyrics services, Spotify and `spotdl` playlists, discovery, the retry
    policy and the background worker's state machine.
  - `ingest/` — the drop folder's stability tracking, the local API's token
    and its request decisions.
  - `playback.rs` — what each tick of the playback loop tells the interface
    and the system's media session.
  - `text.rs`, `unicode.rs` — character-level helpers and Unicode services.
- `tests/` — tests run against the compiled library.
- `app/` — the command-line program around the library: file and folder
  access, tag reading, JSON, the loops that sleep and retry, and what is
  computed in floating point.

`app/` is a small command-line program: it reads and writes files (tags
with lofty, covers, the API token, the drop folder), runs the transcription,
and holds the loops that drive the library's step functions: sending a request
(its cadence and retries), a turn of the identification worker, the stages of
identifying a track, and the steps of applying an identification. Those loops
take the outside work through traits and closures — querying AcoustID and
MusicBrainz, reading and writing the database — and no implementation of them
ships here: this crate has no network client, database or desktop interface.
What the library decides for them is verified: the order of a turn's checks,
which stage follows which report, the title a name search uses and the
proposal a hit makes to the judge, how a request is classified and when it is
retried, how far apart requests leave, and which failures of an application
are fatal.
