//! What the HTTP client shared by the identification services decides:
//! identifying the application honestly, bounding downloads, and reducing an
//! error body to the sentence worth showing. Sending the requests belongs to
//! the application.
use vstd::prelude::*;

use crate::library::naming::collapse_spaces;
use crate::identify::ratelimit::Outcome;
use crate::text::{chars_of, parse_u64, parse_u64_spec, string_from};
use std::time::{Duration, SystemTime};

verus! {

/// Longest wait for a request, in milliseconds: the services are sometimes slow
/// at peak hours, and identification runs in the background.
pub const REQUEST_TIMEOUT: u64 = 20_000;

/// Identification of the application. MusicBrainz **demands** a `User-Agent`
/// naming the application and a way to reach its author.
pub const USER_AGENT: &'static str = "Onzer/0.1.0 ( https://github.com/Loogatoxx/Onzer )";

/// Largest accepted download for a cover: beyond, the visual gain is nil and
/// the network cost is not.
pub const MAX_DOWNLOAD_BYTES: u64 = 12 * 1024 * 1024;

/// What a JSON body holds at a path of keys.
#[derive(Debug, Clone, PartialEq, Eq)]
pub enum JsonAt {
    /// The body is not JSON.
    Unreadable,
    /// A key of the path is missing (or a value on the way is no object).
    Absent,
    /// The value there is not a string.
    NotText,
    /// The string there.
    Text(String),
}

/// What an HTTP answer is, before its body is read.
#[derive(Debug, Clone, Copy, PartialEq, Eq, Structural)]
pub enum Response {
    /// 404: the resource does not exist. Not a failure but an answer — many
    /// tracks are absent from the public databases; nothing to retry.
    Absent,
    /// A success announcing a body longer than `MAX_DOWNLOAD_BYTES`: refused.
    TooLarge(u64),
    /// A success whose body is to be read.
    Body,
    /// Any other status, for the retry policy to judge.
    Judge(Outcome),
}

/// The kind of an answer, by its status and its announced length.
pub open spec fn response_kind(status: u16, content_length: Option<u64>) -> Response {
    if status == 404 {
        Response::Absent
    } else if 200 <= status < 300 {
        match content_length {
            Some(n) => if n > MAX_DOWNLOAD_BYTES {
                Response::TooLarge(n)
            } else {
                Response::Body
            },
            None => Response::Body,
        }
    } else {
        Response::Judge(Outcome::Status(status))
    }
}

/// Classifies an answer (see [`response_kind`]).
pub fn classify_response(status: u16, content_length: Option<u64>) -> (r: Response)
    ensures
        r == response_kind(status, content_length),
{
    if status == 404 {
        Response::Absent
    } else if 200 <= status && status < 300 {
        match content_length {
            Some(n) => if n > MAX_DOWNLOAD_BYTES {
                Response::TooLarge(n)
            } else {
                Response::Body
            },
            None => Response::Body,
        }
    } else {
        Response::Judge(Outcome::Status(status))
    }
}

/// The wait a `Retry-After` header asks for, in milliseconds: its whole
/// seconds as `str::parse::<u64>` reads them, times 1000 — saturating at
/// `u64::MAX`, a wait the backoff's maximum caps in any case. A missing or
/// unreadable header gives nothing.
pub open spec fn retry_after_value(header: Option<Seq<char>>) -> Option<u64> {
    match header {
        Some(h) => match parse_u64_spec(h) {
            Some(seconds) => Some(
                if seconds * 1000 > u64::MAX {
                    u64::MAX
                } else {
                    (seconds * 1000) as u64
                },
            ),
            None => None,
        },
        None => None,
    }
}

/// Reads a `Retry-After` header (see [`retry_after_value`]).
pub fn retry_after_ms(header: Option<&str>) -> (r: Option<u64>)
    ensures
        r == retry_after_value(
            match header {
                Some(h) => Some(h@),
                None => None,
            },
        ),
{
    match header {
        Some(h) => match parse_u64(chars_of(h).as_slice()) {
            Some(seconds) => Some(
                if seconds > u64::MAX / 1000 {
                    u64::MAX
                } else {
                    seconds * 1000
                },
            ),
            None => None,
        },
        None => None,
    }
}

/// `JsonAt` as plain values.
pub enum JsonFound {
    Unreadable,
    Absent,
    NotText,
    Text(Seq<char>),
}

/// `JsonAt` as plain values.
pub open spec fn found(r: JsonAt) -> JsonFound {
    match r {
        JsonAt::Unreadable => JsonFound::Unreadable,
        JsonAt::Absent => JsonFound::Absent,
        JsonAt::NotText => JsonFound::NotText,
        JsonAt::Text(s) => JsonFound::Text(s@),
    }
}

/// A JSON value, as `serde_json` parses it into a `serde_json::Value`; of a
/// number, only that it is one.
#[derive(Debug)]
pub enum Json {
    Null,
    Bool(bool),
    Number,
    Text(String),
    Array(Vec<Json>),
    /// The members, each key once.
    Object(Vec<(String, Json)>),
}

/// What `serde_json::from_str::<serde_json::Value>` parses a body to, `None`
/// when the body is not JSON.
pub uninterp spec fn parsed_json(body: Seq<char>) -> Option<Json>;

/// A parsed JSON value, carried through opaque.
#[verifier::external_type_specification]
#[verifier::external_body]
pub struct ExJsonValue(serde_json::Value);

/// `serde_json::from_str::<serde_json::Value>`, the value converted variant by
/// variant into a `Json`. Trusted: the parsing is `serde_json`'s; its result is
/// only named, as a function of the body.
#[verifier::external_body]
fn parse_json(body: &str) -> (r: Option<Json>)
    ensures
        r == parsed_json(body@),
{
    match serde_json::from_str::<serde_json::Value>(body) {
        Ok(value) => Some(json_of(&value)),
        Err(_) => None,
    }
}

/// A `serde_json::Value` as a `Json`, one variant for one, members and items
/// in the value's own order.
#[verifier::external_body]
fn json_of(value: &serde_json::Value) -> Json {
    match value {
        serde_json::Value::Null => Json::Null,
        serde_json::Value::Bool(b) => Json::Bool(*b),
        serde_json::Value::Number(_) => Json::Number,
        serde_json::Value::String(s) => Json::Text(s.clone()),
        serde_json::Value::Array(items) => Json::Array(items.iter().map(json_of).collect()),
        serde_json::Value::Object(members) => Json::Object(
            members.iter().map(|(k, v)| (k.clone(), json_of(v))).collect(),
        ),
    }
}

/// The position of the first member with that key.
pub open spec fn member_index(members: Seq<(String, Json)>, key: Seq<char>) -> Option<int>
    decreases members.len(),
{
    if members.len() == 0 {
        None
    } else {
        match member_index(members.drop_last(), key) {
            Some(i) => Some(i),
            None => if members.last().0@ == key {
                Some(members.len() - 1)
            } else {
                None
            },
        }
    }
}

/// The string at a path of keys of a value, as `Value::get` walks it (only an
/// object has members) and `Value::as_str` reads it.
pub open spec fn text_at(value: Json, path: Seq<Seq<char>>) -> JsonFound
    decreases path.len(),
{
    if path.len() == 0 {
        match value {
            Json::Text(s) => JsonFound::Text(s@),
            _ => JsonFound::NotText,
        }
    } else {
        match value {
            Json::Object(members) => match member_index(members@, path[0]) {
                Some(i) => text_at(members@[i].1, path.drop_first()),
                None => JsonFound::Absent,
            },
            _ => JsonFound::Absent,
        }
    }
}

/// What a body holds at a path of keys.
pub open spec fn json_at(body: Seq<char>, path: Seq<Seq<char>>) -> JsonFound {
    match parsed_json(body) {
        Some(value) => text_at(value, path),
        None => JsonFound::Unreadable,
    }
}

/// Keys as character sequences.
pub open spec fn keys_view(path: Seq<&str>) -> Seq<Seq<char>> {
    path.map_values(|k: &str| k@)
}

/// The first member with that key.
fn find_member(members: &Vec<(String, Json)>, key: &str) -> (r: Option<usize>)
    ensures
        match r {
            Some(i) => member_index(members@, key@) == Some(i as int) && i < members@.len(),
            None => member_index(members@, key@) is None,
        },
{
    let k = chars_of(key);
    let mut i: usize = 0;
    while i < members.len()
        invariant
            i <= members@.len(),
            k@ == key@,
            member_index(members@.take(i as int), key@) is None,
        decreases members@.len() - i,
    {
        proof {
            assert(members@.take(i + 1).drop_last() =~= members@.take(i as int));
        }
        if crate::text::chars_eq(chars_of(members[i].0.as_str()).as_slice(), k.as_slice()) {
            proof {
                lemma_member_index_prefix(members@, key@, i + 1);
            }
            return Some(i);
        }
        i = i + 1;
    }
    assert(members@.take(i as int) =~= members@);
    None
}

/// A member found in a prefix is the one found in the whole.
proof fn lemma_member_index_prefix(members: Seq<(String, Json)>, key: Seq<char>, n: int)
    requires
        0 <= n <= members.len(),
        member_index(members.take(n), key) is Some,
    ensures
        member_index(members, key) == member_index(members.take(n), key),
    decreases members.len() - n,
{
    if n < members.len() {
        assert(members.take(n + 1).drop_last() =~= members.take(n));
        lemma_member_index_prefix(members, key, n + 1);
    } else {
        assert(members.take(n) =~= members);
    }
}

/// The string a JSON body holds at a path of keys (see [`json_at`]).
fn lookup_json(body: &str, path: &[&str]) -> (r: JsonAt)
    ensures
        found(r) == json_at(body@, keys_view(path@)),
{
    let root = match parse_json(body) {
        Some(value) => value,
        None => return JsonAt::Unreadable,
    };
    let ghost keys = keys_view(path@);
    assert(keys.skip(0) =~= keys);
    let mut node = &root;
    let mut i: usize = 0;
    while i < path.len()
        invariant
            i <= path@.len(),
            keys == keys_view(path@),
            text_at(*node, keys.skip(i as int)) == text_at(root, keys),
            parsed_json(body@) == Some(root),
        decreases path@.len() - i,
    {
        proof {
            assert(keys.skip(i as int)[0] == path@[i as int]@);
            assert(keys.skip(i as int).drop_first() =~= keys.skip(i + 1));
        }
        match node {
            Json::Object(members) => match find_member(members, path[i]) {
                Some(k) => {
                    node = &members[k].1;
                },
                None => return JsonAt::Absent,
            },
            _ => return JsonAt::Absent,
        }
        i = i + 1;
    }
    assert(keys.skip(i as int) =~= Seq::<Seq<char>>::empty());
    match node {
        Json::Text(s) => JsonAt::Text(s.clone()),
        _ => JsonAt::NotText,
    }
}

/// At most the first `n` characters.
pub open spec fn first_chars(s: Seq<char>, n: nat) -> Seq<char> {
    if s.len() <= n {
        s
    } else {
        s.take(n as int)
    }
}

/// The error body of a service, as shown: the message of a JSON error
/// (`error.message`, as AcoustID explains a refusal), otherwise the body with
/// its white space condensed, cut to 160 characters — an HTML error page of
/// several kilobytes has no place in an interface message.
pub open spec fn summary(body: Seq<char>) -> Seq<char> {
    match json_at(body, seq!["error"@, "message"@]) {
        JsonFound::Text(m) => m,
        _ => first_chars(collapse_spaces(body), 160),
    }
}

/// Keeps at most the first `n` characters.
fn keep_first(v: &[char], n: usize) -> (r: Vec<char>)
    ensures
        r@ == first_chars(v@, n as nat),
{
    if v.len() <= n {
        crate::text::slice_chars(v, 0, v.len())
    } else {
        crate::text::slice_chars(v, 0, n)
    }
}

/// White space runs condensed to one space, none at either end.
fn condense(s: &[char]) -> (r: Vec<char>)
    ensures
        r@ == collapse_spaces(s@),
{
    let mut out: Vec<char> = Vec::new();
    let mut i: usize = 0;
    while i < s.len()
        invariant
            i <= s@.len(),
            out@ == crate::library::naming::squeeze(s@.take(i as int)),
        decreases s@.len() - i,
    {
        let c = s[i];
        assert(s@.take(i + 1).drop_last() =~= s@.take(i as int));
        if crate::text::is_whitespace(c) {
            if out.len() > 0 && out[out.len() - 1] != ' ' {
                out.push(' ');
            }
        } else {
            out.push(c);
        }
        i = i + 1;
    }
    assert(s@.take(i as int) =~= s@);
    if out.len() > 0 && out[out.len() - 1] == ' ' {
        out.pop();
    }
    out
}

/// Reduces an error body to what is shown of it.
pub fn summarize(body: &str) -> (r: String)
    ensures
        r@ == summary(body@),
{
    let path = ["error", "message"];
    let found_at = lookup_json(body, path.as_slice());
    assert(keys_view(path@) =~= seq!["error"@, "message"@]);
    match found_at {
        JsonAt::Text(m) => m,
        _ => {
            let condensed = condense(chars_of(body).as_slice());
            string_from(keep_first(condensed.as_slice(), 160).as_slice())
        },
    }
}

/// The useful sentence of an authorisation error: `error_description`, or else
/// `error`, when it is a string; otherwise the first 160 characters of the body.
pub open spec fn token_error_summary(body: Seq<char>) -> Seq<char> {
    match json_at(body, seq!["error_description"@]) {
        JsonFound::Text(m) => m,
        JsonFound::Absent => match json_at(body, seq!["error"@]) {
            JsonFound::Text(m) => m,
            _ => first_chars(body, 160),
        },
        _ => first_chars(body, 160),
    }
}

/// Reduces an authorisation error body to its useful sentence.
pub fn summarize_token_error(body: &str) -> (r: String)
    ensures
        r@ == token_error_summary(body@),
{
    let description = ["error_description"];
    let error = ["error"];
    assert(keys_view(description@) =~= seq!["error_description"@]);
    assert(keys_view(error@) =~= seq!["error"@]);
    match lookup_json(body, description.as_slice()) {
        JsonAt::Text(m) => m,
        JsonAt::Absent => match lookup_json(body, error.as_slice()) {
            JsonAt::Text(m) => m,
            _ => string_from(keep_first(chars_of(body).as_slice(), 160).as_slice()),
        },
        _ => string_from(keep_first(chars_of(body).as_slice(), 160).as_slice()),
    }
}

/// The system clock's instant type, carried through opaque.
#[verifier::external_type_specification]
#[verifier::external_body]
pub struct ExSystemTime(std::time::SystemTime);

/// `SystemTime::now`: the current instant of the system clock. Nothing is
/// stated of it: it depends on the machine's clock alone.
#[verifier::external_body]
fn clock_now() -> SystemTime {
    SystemTime::now()
}

/// `SystemTime::duration_since(UNIX_EPOCH)`: the time elapsed since the epoch,
/// `None` when the clock stands before it. Nothing is stated of the value.
#[verifier::external_body]
fn since_epoch(t: &SystemTime) -> Option<Duration> {
    match t.duration_since(std::time::UNIX_EPOCH) {
        Ok(elapsed) => Some(elapsed),
        Err(_) => None,
    }
}

/// `Duration::subsec_nanos`: the fractional part of the duration in
/// nanoseconds, which std documents as always below one billion.
#[verifier::external_body]
fn subsec_nanos(d: &Duration) -> (r: u32)
    ensures
        r < 1_000_000_000,
{
    d.subsec_nanos()
}

/// A jitter seed drawn from the clock: the nanoseconds of the current second,
/// 0 when the clock stands before the epoch.
pub fn jitter_seed() -> (r: u64)
    ensures
        r < 1_000_000_000,
{
    let now = clock_now();
    match since_epoch(&now) {
        Some(elapsed) => subsec_nanos(&elapsed) as u64,
        None => 0,
    }
}

} // verus!
