//! API keys and webhook signatures.

use vstd::prelude::*;
use vstd::utf8::*;
use vstd::string::{StringSliceAdditionalSpecFns, StrSliceExecFns};
use crate::hashing::{sha256_spec, hmac_sha256_spec, sha256_digest, hmac_sha256, random_bytes_16};
use crate::text::{hex_lower, lemma_hex_lower_len, push_str, push_hex, to_hex, owned, chars_of, push_char};

verus! {

/// The UTF-8 bytes of a text.
pub open spec fn utf8(s: Seq<char>) -> Seq<u8> {
    encode_utf8(s)
}

/// An API key: `lm_live_` and the lower-case hex spelling of its sixteen
/// random bytes.
pub open spec fn api_key_spec(b: Seq<u8>) -> Seq<char> {
    "lm_live_"@ + hex_lower(b)
}

/// What is stored for a raw key: the lower-case hex SHA-256 of its bytes.
pub open spec fn key_hash_spec(raw: Seq<char>) -> Seq<char> {
    hex_lower(sha256_spec(utf8(raw)))
}

/// Number of leading bytes that a cut after `n` bytes keeps.
pub open spec fn head_len(s: Seq<char>, n: int) -> int {
    if utf8(s).len() < n {
        utf8(s).len() as int
    } else {
        n
    }
}

/// A cut of `s` after `n` bytes (or at its end) falls between characters;
/// slicing a `str` anywhere else panics.
pub open spec fn head_ok(s: Seq<char>, n: int) -> bool {
    is_char_boundary(utf8(s), head_len(s, n))
}

/// The text in the first `n` bytes of `s` (all of it when shorter):
/// `&s[..s.len().min(n)]`.
pub open spec fn head_spec(s: Seq<char>, n: int) -> Seq<char> {
    decode_utf8(utf8(s).take(head_len(s, n)))
}

/// The hint shown for a key: its first sixteen characters (all of it when
/// shorter), then `...`.
pub open spec fn key_hint_spec(raw: Seq<char>) -> Seq<char> {
    raw.take(if raw.len() < 16 { raw.len() as int } else { 16 }) + "..."@
}

/// The text in the first `n` bytes of `s` where that cut falls between two
/// characters; all of `s` where it would split one.
pub open spec fn cut_spec(s: Seq<char>, n: int) -> Seq<char> {
    if head_ok(s, n) {
        head_spec(s, n)
    } else {
        s
    }
}

/// The first `n` bytes of `s` (all of it when shorter).
pub fn head_bytes(s: &str, n: usize) -> (r: String)
    requires
        head_ok(s@, n as int),
    ensures
        r@ == head_spec(s@, n as int),
{
    proof {
        encode_utf8_valid_utf8(s@);
    }
    let blen = s.as_bytes().len();
    let k = if blen < n {
        blen
    } else {
        n
    };
    let (head, _) = s.split_at(k);
    proof {
        encode_utf8_decode_utf8(head@);
        assert(head.spec_bytes() =~= s.spec_bytes().take(k as int));
    }
    owned(head)
}

/// The webhook signature header: `sha256=` and the lower-case hex
/// HMAC-SHA256 of the body keyed with the secret.
pub open spec fn signature_spec(secret: Seq<char>, body: Seq<char>) -> Seq<char> {
    "sha256="@ + hex_lower(hmac_sha256_spec(utf8(secret), utf8(body)))
}

/// The key text for sixteen given bytes.
pub fn api_key_from_bytes(b: &[u8; 16]) -> (r: String)
    ensures
        r@ == api_key_spec(b@),
        r@.len() == 40,
{
    let mut s = String::new();
    let prefix = "lm_live_";
    push_str(&mut s, prefix);
    push_hex(&mut s, b.as_slice());
    proof {
        reveal_strlit("lm_live_");
        lemma_hex_lower_len(b@);
        assert(s@ =~= api_key_spec(b@));
    }
    s
}

/// A fresh random API key: `lm_live_` and 32 lower-case hex digits.
pub fn generate_key() -> (r: String)
    ensures
        exists|b: Seq<u8>| b.len() == 16 && r@ == api_key_spec(b),
        r@.len() == 40,
{
    let b = random_bytes_16();
    api_key_from_bytes(&b)
}

/// SHA-256 of the raw key, in lower-case hex — what is stored and indexed.
pub fn hash_key(raw: &str) -> (r: String)
    ensures
        r@ == key_hash_spec(raw@),
        r@.len() == 64,
{
    let d = sha256_digest(raw.as_bytes());
    let r = to_hex(d.as_slice());
    proof {
        lemma_hex_lower_len(d@);
    }
    r
}

/// Display hint of a key: its first sixteen characters and `...`.
pub fn key_hint(raw: &str) -> (r: String)
    ensures
        r@ == key_hint_spec(raw@),
{
    let cs = chars_of(raw);
    let n: usize = if cs.len() < 16 {
        cs.len()
    } else {
        16
    };
    let mut s = String::new();
    let mut i: usize = 0;
    while i < n
        invariant
            0 <= i <= n <= cs@.len(),
            cs@ == raw@,
            s@ == raw@.take(i as int),
        decreases n - i,
    {
        push_char(&mut s, cs[i]);
        proof {
            assert(raw@.take(i as int + 1) =~= raw@.take(i as int).push(raw@[i as int]));
        }
        i = i + 1;
    }
    push_str(&mut s, "...");
    proof {
        reveal_strlit("...");
    }
    s
}

/// The first `n` bytes of `s` where that cut falls between two characters,
/// all of `s` otherwise: a cut that never panics.
pub fn cut_text(s: &str, n: usize) -> (r: String)
    ensures
        r@ == cut_spec(s@, n as int),
{
    proof {
        encode_utf8_valid_utf8(s@);
    }
    let blen = s.as_bytes().len();
    let k = if blen < n {
        blen
    } else {
        n
    };
    if s.is_char_boundary(k) {
        head_bytes(s, n)
    } else {
        owned(s)
    }
}

/// Webhook signature: `sha256=` and the hex HMAC-SHA256 of `body` under
/// `secret`.
pub fn hmac_signature(secret: &str, body: &str) -> (r: String)
    ensures
        r@ == signature_spec(secret@, body@),
        r@.len() == 71,
{
    let mac = hmac_sha256(secret.as_bytes(), body.as_bytes());
    let mut s = String::new();
    push_str(&mut s, "sha256=");
    push_hex(&mut s, mac.as_slice());
    proof {
        reveal_strlit("sha256=");
        lemma_hex_lower_len(mac@);
        assert(s@ =~= signature_spec(secret@, body@));
    }
    s
}

} // verus!
