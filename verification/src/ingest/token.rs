//! Authentication token of the local API.
//!
//! The API only listens on `127.0.0.1`, which is not enough: **every program on
//! the machine can reach `127.0.0.1`**, a web page through `fetch` included. The
//! token is generated at first start, stored in a file only its owner can read,
//! and expected in an `Authorization` header.
use vstd::prelude::*;

use crate::text::{chars_of, string_from, trim, trim_chars};

verus! {

pub const TOKEN_FILE: &'static str = "onzer.token";

/// A lowercase hexadecimal digit.
pub open spec fn is_lower_hex(c: char) -> bool {
    ('0' <= c && c <= '9') || ('a' <= c && c <= 'f')
}

/// Every character is a lowercase hexadecimal digit.
pub open spec fn all_lower_hex(s: Seq<char>) -> bool {
    forall|i: int| 0 <= i < s.len() ==> is_lower_hex(#[trigger] s[i])
}

/// `uuid::Uuid::new_v4().simple().to_string()`: a random UUID written as its 32
/// lowercase hexadecimal digits, without hyphens. Which digits come out is left
/// open: they are drawn from the system's entropy.
#[verifier::external_body]
fn random_uuid_hex() -> (r: String)
    ensures
        r@.len() == 32,
        all_lower_hex(r@),
{
    uuid::Uuid::new_v4().simple().to_string()
}

/// 256 random bits, in hexadecimal: two v4 UUIDs, one after the other.
pub fn generate() -> (r: String)
    ensures
        r@.len() == 64,
        all_lower_hex(r@),
{
    let first = random_uuid_hex();
    let second = random_uuid_hex();
    let mut v = chars_of(first.as_str());
    let w = chars_of(second.as_str());
    crate::text::push_all(&mut v, w.as_slice());
    string_from(v.as_slice())
}

/// The token a file holds, when it is still usable: its content trimmed, if that
/// is at least 32 bytes long. A truncated or corrupted file gives `None`, and a
/// new token is generated rather than starting with a weak secret.
pub fn reusable_token(content: &str) -> (r: Option<String>)
    ensures
        match r {
            Some(t) => t@ == trim(content@) && vstd::utf8::encode_utf8(trim(content@)).len() >= 32,
            None => vstd::utf8::encode_utf8(trim(content@)).len() < 32,
        },
{
    let chars = chars_of(content);
    let trimmed = trim_chars(chars.as_slice());
    let token = string_from(trimmed.as_slice());
    let bytes = token.as_str().as_bytes();
    if bytes.len() >= 32 {
        Some(token)
    } else {
        None
    }
}

/// Compares two tokens in **constant time**.
///
/// An ordinary comparison stops at the first differing byte: the response time
/// then tells how many leading characters are right, which lets the secret be
/// rebuilt byte after byte.
pub fn constant_time_eq(left: &str, right: &str) -> (r: bool)
    ensures
        r == (left@ == right@),
{
    let a = left.as_bytes();
    let b = right.as_bytes();
    proof {
        vstd::utf8::encode_utf8_decode_utf8(left@);
        vstd::utf8::encode_utf8_decode_utf8(right@);
    }
    if a.len() != b.len() {
        return false;
    }
    let mut difference: u8 = 0;
    let mut i: usize = 0;
    assert(a@.take(0) =~= b@.take(0));
    while i < a.len()
        invariant
            i <= a@.len(),
            a@.len() == b@.len(),
            (difference == 0) == (a@.take(i as int) == b@.take(i as int)),
        decreases a@.len() - i,
    {
        let x = a[i];
        let y = b[i];
        let d = x ^ y;
        let next = difference | d;
        assert((next == 0) == (difference == 0 && x == y)) by (bit_vector)
            requires
                d == x ^ y,
                next == difference | d,
        ;
        proof {
            assert(a@.take(i + 1) == a@.take(i as int).push(x));
            assert(b@.take(i + 1) == b@.take(i as int).push(y));
            if a@.take(i as int) == b@.take(i as int) && x == y {
                assert(a@.take(i + 1) =~= b@.take(i + 1));
            }
            if a@.take(i + 1) == b@.take(i + 1) {
                assert(a@.take(i + 1)[i as int] == b@.take(i + 1)[i as int]);
                assert(a@.take(i as int) =~= a@.take(i + 1).drop_last());
                assert(b@.take(i as int) =~= b@.take(i + 1).drop_last());
            }
        }
        difference = next;
        i = i + 1;
    }
    assert(a@.take(i as int) =~= a@);
    assert(b@.take(i as int) =~= b@);
    difference == 0
}

/// Hexadecimal digits take one byte each.
proof fn lemma_hex_bytes(t: Seq<char>)
    requires
        all_lower_hex(t),
    ensures
        crate::library::naming::utf8_len(t) == t.len(),
    decreases t.len(),
{
    if t.len() > 0 {
        assert(is_lower_hex(t[0]));
        assert(all_lower_hex(t.drop_first())) by {
            assert forall|i: int| 0 <= i < t.drop_first().len() implies is_lower_hex(#[trigger] t.drop_first()[i]) by {
                assert(t.drop_first()[i] == t[i + 1]);
            }
        }
        lemma_hex_bytes(t.drop_first());
    }
}

/// **A token written is read back as it was**: what `generate` writes to the
/// token file (64 hexadecimal digits) is a reusable token, and the very same.
pub proof fn lemma_written_token_reads_back(t: Seq<char>)
    requires
        t.len() == 64,
        all_lower_hex(t),
    ensures
        trim(t) == t,
        vstd::utf8::encode_utf8(trim(t)).len() >= 32,
{
    assert(is_lower_hex(t[0]) && is_lower_hex(t.last()));
    crate::text::lemma_trim_keeps(t);
    lemma_hex_bytes(t);
    crate::library::naming::lemma_utf8_len_is_encoding_len(t);
}

} // verus!
