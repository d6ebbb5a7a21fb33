//! API keys, webhook signatures and request authentication.

use vstd::prelude::*;
use vstd::utf8::encode_utf8_decode_utf8;
use crate::crypto::{self, api_key_spec, key_hash_spec, key_hint_spec, signature_spec};
use crate::state::{AppState, merchant_by_key_spec};
use crate::text::{has_prefix, trim, trim_spec, starts_with, chars_of, string_of};

verus! {

// ── API key format: lm_live_<32 hex chars> ───────────────────────────────────

/// A fresh random API key: `lm_live_` and 32 lower-case hex digits.
pub fn generate_key() -> (r: String)
    ensures
        exists|b: Seq<u8>| b.len() == 16 && r@ == api_key_spec(b),
        r@.len() == 40,
{
    crypto::generate_key()
}

/// SHA-256 of the raw key in lower-case hex — what is stored and indexed.
pub fn hash_key(raw: &str) -> (r: String)
    ensures
        r@ == key_hash_spec(raw@),
        r@.len() == 64,
{
    crypto::hash_key(raw)
}

/// Display hint: the first sixteen characters of the key and `...`.
pub fn key_hint(raw: &str) -> (r: String)
    ensures
        r@ == key_hint_spec(raw@),
{
    crypto::key_hint(raw)
}

// ── HMAC-SHA256 webhook signature ────────────────────────────────────────────

/// `sha256=` and the hex HMAC-SHA256 of `body` under `secret`.
pub fn hmac_signature(secret: &str, body: &str) -> (r: String)
    ensures
        r@ == signature_spec(secret@, body@),
        r@.len() == 71,
{
    crypto::hmac_signature(secret, body)
}

/// The header carries exactly the signature of `body` under `secret`. After
/// a length check every byte is compared, whatever the earlier ones gave.
pub fn verify_signature(body: &str, header: &str, secret: &str) -> (r: bool)
    ensures
        r == (header@ == signature_spec(secret@, body@)),
{
    let expected = hmac_signature(secret, body);
    let e = expected.as_str().as_bytes();
    let h = header.as_bytes();
    if e.len() != h.len() {
        proof {
            if header@ == expected@ {
                assert(e@ == h@);
            }
        }
        return false;
    }
    let mut i: usize = 0;
    let mut diff: u8 = 0;
    while i < e.len()
        invariant
            0 <= i <= e@.len(),
            e@.len() == h@.len(),
            (diff == 0) == (forall|k: int| 0 <= k < i ==> e@[k] == h@[k]),
        decreases e@.len() - i,
    {
        let x = e[i];
        let y = h[i];
        assert((diff | (x ^ y)) == 0 <==> (diff == 0 && x == y)) by (bit_vector);
        diff = diff | (x ^ y);
        i = i + 1;
    }
    let all = diff == 0;
    proof {
        if all {
            assert(e@ =~= h@);
            encode_utf8_decode_utf8(expected@);
            encode_utf8_decode_utf8(header@);
        } else if header@ == expected@ {
            assert(e@ == h@);
        }
    }
    all
}

// ── Authentication ───────────────────────────────────────────────────────────

/// The merchant a request is made for, once authenticated.
#[derive(Clone, Debug)]
pub struct MerchantId(pub String);

/// Why a request was not authenticated.
#[derive(Clone, Copy, Debug, PartialEq, Eq, Structural)]
pub enum AuthError {
    /// No key in `Authorization: Bearer <key>` nor in `X-Api-Key: <key>`.
    MissingApiKey,
    /// The key belongs to no merchant.
    InvalidApiKey,
}

/// The text of an optional string.
pub open spec fn opt_view(o: Option<&str>) -> Option<Seq<char>> {
    match o {
        Some(s) => Some(s@),
        None => None,
    }
}

/// The key that a request carries: after `Bearer ` in the `Authorization`
/// header, else the `X-Api-Key` header, trimmed either way.
pub open spec fn extract_key_spec(
    authorization: Option<Seq<char>>,
    x_api_key: Option<Seq<char>>,
) -> Option<Seq<char>> {
    if authorization is Some && has_prefix(authorization->0, "Bearer "@) {
        Some(trim_spec(authorization->0.skip(7)))
    } else if x_api_key is Some {
        Some(trim_spec(x_api_key->0))
    } else {
        None
    }
}

/// Reads the API key out of the `Authorization` and `X-Api-Key` header
/// values (each given where the header is present and is visible text).
pub fn extract_key(authorization: Option<&str>, x_api_key: Option<&str>) -> (r: Option<String>)
    ensures
        r matches Some(k) ==> extract_key_spec(
            opt_view(authorization),
            opt_view(x_api_key),
        ) == Some(k@),
        r is None ==> extract_key_spec(
            opt_view(authorization),
            opt_view(x_api_key),
        ) is None,
{
    proof {
        reveal_strlit("Bearer ");
    }
    if let Some(a) = authorization {
        if starts_with(a, "Bearer ") {
            let cs = chars_of(a);
            let rest = string_of(&cs.as_slice()[7..cs.len()]);
            proof {
                assert(rest@ =~= a@.skip(7));
            }
            return Some(trim(rest.as_str()));
        }
    }
    if let Some(x) = x_api_key {
        return Some(trim(x));
    }
    None
}

/// What authenticating a request gives: the merchant id that its key
/// belongs to, or why there is none.
pub open spec fn authenticate_spec(
    st: &AppState,
    authorization: Option<Seq<char>>,
    x_api_key: Option<Seq<char>>,
) -> Result<Seq<char>, AuthError> {
    match extract_key_spec(authorization, x_api_key) {
        None => Err(AuthError::MissingApiKey),
        Some(k) => match merchant_by_key_spec(st, k) {
            Some(m) => Ok(m.id@),
            None => Err(AuthError::InvalidApiKey),
        },
    }
}

/// The decision of the authentication middleware: which merchant the
/// request's API key belongs to.
pub fn authenticate(st: &AppState, authorization: Option<&str>, x_api_key: Option<&str>) -> (r:
    Result<MerchantId, AuthError>)
    ensures
        match r {
            Ok(id) => authenticate_spec(
                st,
                opt_view(authorization),
                opt_view(x_api_key),
            ) == Ok::<Seq<char>, AuthError>(id.0@),
            Err(e) => authenticate_spec(
                st,
                opt_view(authorization),
                opt_view(x_api_key),
            ) == Err::<Seq<char>, AuthError>(e),
        },
{
    let raw = match extract_key(authorization, x_api_key) {
        Some(k) => k,
        None => {
            return Err(AuthError::MissingApiKey);
        },
    };
    match st.merchant_by_key(raw.as_str()) {
        Some(m) => Ok(MerchantId(m.id.clone())),
        None => Err(AuthError::InvalidApiKey),
    }
}

} // verus!
