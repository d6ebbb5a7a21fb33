//! The node's on-chain key, Bitcoin addresses, and Bitcoin signed-message
//! checks.

use vstd::prelude::*;
use std::str::FromStr;
use base64::Engine;

verus! {

#[verifier::external_type_specification]
#[verifier::external_body]
pub struct ExPrivateKey(bitcoin::PrivateKey);

// ── Names for what the outside crates compute ────────────────────────────────

/// The key that `secp256k1::PublicKey::from_str` reads from the text (hex
/// of a valid compressed or uncompressed key), as its 33-byte compressed
/// serialization; `None` where it refuses the text.
pub uninterp spec fn secp_pubkey_point(s: Seq<char>) -> Option<Seq<u8>>;

/// The public key that ECDSA recovery (libsecp256k1, as the `secp256k1`
/// crate calls it) gives for a 32-byte digest, a 64-byte compact signature
/// and a recovery id, as its 33-byte compressed serialization; `None` where
/// the id, the signature or the recovery is refused.
pub uninterp spec fn ecdsa_recover_spec(digest: Seq<u8>, compact: Seq<u8>, recid: i32) -> Option<Seq<u8>>;

/// The key that `bitcoin::PublicKey::from_str` reads from the text, as the
/// bytes `to_bytes` gives (33 compressed or 65 uncompressed); `None` where
/// it refuses the text.
pub uninterp spec fn btc_pubkey_bytes(s: Seq<char>) -> Option<Seq<u8>>;

/// The testnet P2WPKH address (`bitcoin::Address::p2wpkh`, formatted) of
/// the key with these bytes; `None` where it refuses the key (an
/// uncompressed one).
pub uninterp spec fn p2wpkh_testnet_spec(key: Seq<u8>) -> Option<Seq<char>>;

/// What base64's `STANDARD` engine decodes the text to (`None` where it
/// refuses it).
pub uninterp spec fn base64_decode_spec(s: Seq<char>) -> Option<Seq<u8>>;

/// Double SHA-256 of the bytes, as `bitcoin::hashes::sha256d` computes it.
pub uninterp spec fn sha256d_spec(data: Seq<u8>) -> Seq<u8>;

/// The output script (`script_pubkey`, as bytes) of the address that
/// `bitcoin::Address::from_str` reads from the text; `None` where it
/// refuses the text.
pub uninterp spec fn address_script_spec(s: Seq<char>) -> Option<Seq<u8>>;

/// `bitcoin::Address::from_str` accepts the text.
pub open spec fn address_parses(s: Seq<char>) -> bool {
    address_script_spec(s) is Some
}

/// The address parses and `require_network(Testnet)` accepts it.
pub uninterp spec fn address_on_testnet(s: Seq<char>) -> bool;

/// The key that `bitcoin::PrivateKey::from_str` reads from a WIF text: its
/// 32 secret bytes and whether its public key is compressed; `None` where it
/// refuses the text.
pub uninterp spec fn wif_key(s: Seq<char>) -> Option<(Seq<u8>, bool)>;

/// `bitcoin::PrivateKey::from_str` (WIF) accepts the text.
pub open spec fn wif_parses(s: Seq<char>) -> bool {
    wif_key(s) is Some
}

// ── Wrappers ──────────────────────────────────────────────────────────────────

/// Calls `secp256k1::PublicKey::from_str` and, for a key, `serialize` (its
/// compressed form). Claimed: the outcome is what `secp_pubkey_point` names
/// for the text.
#[verifier::external_body]
fn parse_secp_pubkey(s: &str) -> (r: Option<[u8; 33]>)
    ensures
        match r {
            Some(k) => secp_pubkey_point(s@) == Some(k@),
            None => secp_pubkey_point(s@) is None,
        },
{
    bitcoin::secp256k1::PublicKey::from_str(s).ok().map(|k| k.serialize())
}

/// Calls `base64::engine::general_purpose::STANDARD.decode`. Claimed: the
/// outcome is what `base64_decode_spec` names for the text.
#[verifier::external_body]
fn base64_decode(s: &str) -> (r: Option<Vec<u8>>)
    ensures
        match r {
            Some(v) => base64_decode_spec(s@) == Some(v@),
            None => base64_decode_spec(s@) is None,
        },
{
    base64::engine::general_purpose::STANDARD.decode(s).ok()
}

/// Calls `bitcoin::hashes::sha256d::Hash::hash`. Claimed: the 32 bytes are
/// the value that `sha256d_spec` names for the data.
#[verifier::external_body]
fn sha256d(data: &[u8]) -> (r: [u8; 32])
    ensures
        r@ == sha256d_spec(data@),
{
    let h: bitcoin::hashes::sha256d::Hash = bitcoin::hashes::Hash::hash(data);
    bitcoin::hashes::Hash::to_byte_array(h)
}

/// Recovers the signing key: `RecoveryId::from_i32`, then
/// `RecoverableSignature::from_compact`, then `recover_ecdsa` of a
/// verification-only context on the digest (as a `Message`, which takes
/// every 32-byte digest), then `serialize`. Claimed: the outcome is what
/// `ecdsa_recover_spec` names for the digest, the signature and the id; and,
/// as their source shows, `from_i32` refuses ids outside 0 to 3 and
/// `from_compact` refuses signatures that are not 64 bytes long.
#[verifier::external_body]
fn recover_compressed(digest: [u8; 32], compact: &[u8], recid: i32) -> (r: Option<[u8; 33]>)
    ensures
        match r {
            Some(k) => ecdsa_recover_spec(digest@, compact@, recid) == Some(k@),
            None => ecdsa_recover_spec(digest@, compact@, recid) is None,
        },
        r is Some ==> compact@.len() == 64 && 0 <= recid <= 3,
{
    let id = bitcoin::secp256k1::ecdsa::RecoveryId::from_i32(recid).ok()?;
    let sig = bitcoin::secp256k1::ecdsa::RecoverableSignature::from_compact(compact, id).ok()?;
    let msg = bitcoin::secp256k1::Message::from_slice(&digest).expect("32-byte digest");
    let key = bitcoin::secp256k1::Secp256k1::verification_only().recover_ecdsa(&msg, &sig).ok()?;
    Some(key.serialize())
}

/// Calls `bitcoin::PublicKey::from_str` and, for a key, `to_bytes`.
/// Claimed: the outcome is what `btc_pubkey_bytes` names for the text.
#[verifier::external_body]
fn parse_btc_pubkey(s: &str) -> (r: Option<Vec<u8>>)
    ensures
        match r {
            Some(k) => btc_pubkey_bytes(s@) == Some(k@),
            None => btc_pubkey_bytes(s@) is None,
        },
{
    bitcoin::PublicKey::from_str(s).ok().map(|k| k.to_bytes())
}

/// Reads the key back with `bitcoin::PublicKey::from_slice`, then calls
/// `bitcoin::Address::p2wpkh` for testnet and formats the address. Claimed:
/// the outcome is what `p2wpkh_testnet_spec` names for the key's bytes.
#[verifier::external_body]
fn p2wpkh_testnet(key: &[u8]) -> (r: Option<String>)
    ensures
        match r {
            Some(a) => p2wpkh_testnet_spec(key@) == Some(a@),
            None => p2wpkh_testnet_spec(key@) is None,
        },
{
    let pk = bitcoin::PublicKey::from_slice(key).ok()?;
    bitcoin::Address::p2wpkh(&pk, bitcoin::Network::Testnet).ok().map(|a| a.to_string())
}

/// Calls `bitcoin::secp256k1::SecretKey::new` with `rand::thread_rng` and
/// wraps it as a testnet `bitcoin::PrivateKey`. Nothing is claimed of the
/// random key.
#[verifier::external_body]
fn random_private_key() -> (r: bitcoin::PrivateKey) {
    let sk = bitcoin::secp256k1::SecretKey::new(&mut rand::thread_rng());
    bitcoin::PrivateKey::new(sk, bitcoin::Network::Testnet)
}

/// Calls `PrivateKey::to_wif`. Claimed, as the source of `fmt_wif` and
/// `from_wif` shows: the text reads back as a key (`from_wif` accepts the
/// version bytes 128 and 239 that `fmt_wif` writes for every network, the
/// 33 or 34 bytes it writes, and the key's valid secret). Nothing else is
/// claimed of the text, the key being opaque here.
#[verifier::external_body]
fn private_key_wif(k: &bitcoin::PrivateKey) -> (r: String)
    ensures
        wif_parses(r@),
{
    k.to_wif()
}

/// Calls `bitcoin::Address::p2pkh` on the key's public key (through a new
/// secp256k1 context) for the key's network, and formats it. Claimed, as the
/// source of the address's formatting and `from_str` shows: the text reads
/// back as an address (a base58check P2PKH address, with the version byte 0
/// or 111 that `from_str` accepts). Nothing else is claimed of the text, the
/// key being opaque here.
#[verifier::external_body]
fn p2pkh_address_of(k: &bitcoin::PrivateKey) -> (r: String)
    ensures
        address_parses(r@),
{
    let secp = bitcoin::secp256k1::Secp256k1::new();
    bitcoin::Address::p2pkh(&k.public_key(&secp), k.network).to_string()
}

/// Calls `bitcoin::Address::from_str`, takes the address as checked
/// (`assume_checked`), and gives the bytes of its `script_pubkey`. Claimed:
/// the outcome is what `address_script_spec` names for the text.
#[verifier::external_body]
pub(crate) fn address_script(s: &str) -> (r: Option<Vec<u8>>)
    ensures
        match r {
            Some(b) => address_script_spec(s@) == Some(b@),
            None => address_script_spec(s@) is None,
        },
{
    match bitcoin::Address::from_str(s) {
        Ok(a) => Some(a.assume_checked().script_pubkey().into_bytes()),
        Err(_) => None,
    }
}

/// Why a withdrawal address is refused.
#[derive(Clone, Debug)]
pub enum AddressError {
    /// `bitcoin::Address::from_str` refused the text, with its message.
    Parse(String),
    /// The address is not a testnet address.
    WrongNetwork,
}

/// Calls `bitcoin::Address::from_str`, then `require_network(Testnet)`, and
/// gives the bytes of the address's `script_pubkey`. Claimed: success
/// exactly where `address_on_testnet` holds, with the script that
/// `address_script_spec` names (the network check keeps the address as it
/// is); `Parse` exactly where the text does not parse; `WrongNetwork`
/// otherwise. The parse error's message is not claimed.
#[verifier::external_body]
pub(crate) fn testnet_address_script(s: &str) -> (r: Result<Vec<u8>, AddressError>)
    ensures
        r is Ok <==> address_on_testnet(s@),
        r matches Ok(b) ==> address_script_spec(s@) == Some(b@),
        r matches Err(AddressError::Parse(_)) <==> !address_parses(s@),
        r matches Err(AddressError::WrongNetwork) <==> (address_parses(s@) && !address_on_testnet(s@)),
{
    match bitcoin::Address::from_str(s) {
        Ok(a) => match a.require_network(bitcoin::Network::Testnet) {
            Ok(a) => Ok(a.script_pubkey().into_bytes()),
            Err(_) => Err(AddressError::WrongNetwork),
        },
        Err(e) => Err(AddressError::Parse(e.to_string())),
    }
}

/// Calls `bitcoin::PrivateKey::from_str` (WIF) and gives the key's secret
/// bytes and compression flag. Claimed: a key comes back exactly where the
/// text parses, the one `wif_key` names; the error's message is not claimed.
#[verifier::external_body]
pub(crate) fn parse_wif(s: &str) -> (r: Result<([u8; 32], bool), String>)
    ensures
        r is Ok <==> wif_parses(s@),
        r matches Ok(k) ==> wif_key(s@) == Some((k.0@, k.1)),
{
    match bitcoin::PrivateKey::from_str(s) {
        Ok(k) => Ok((k.inner.secret_bytes(), k.compressed)),
        Err(e) => Err(e.to_string()),
    }
}

// ── Wallet ────────────────────────────────────────────────────────────────────

/// The node's on-chain key (WIF) and its testnet P2PKH address.
pub struct LocalWallet {
    pub secret_wif: String,
    pub address: String,
}

impl LocalWallet {
    /// A wallet with a fresh random testnet key and its P2PKH address. Both
    /// read back: the key as WIF, the address as an address (so the wallet
    /// can pay and sign withdrawals and settlements).
    pub fn new_random() -> (r: Self)
        ensures
            wif_parses(r.secret_wif@),
            address_parses(r.address@),
    {
        let k = random_private_key();
        let secret_wif = private_key_wif(&k);
        let address = p2pkh_address_of(&k);
        LocalWallet { secret_wif, address }
    }

    /// The output script (as bytes) paying to the wallet's address; `None`
    /// where the stored address does not parse.
    pub fn get_address_obj(&self) -> (r: Option<Vec<u8>>)
        ensures
            match r {
                Some(b) => address_script_spec(self.address@) == Some(b@),
                None => address_script_spec(self.address@) is None,
            },
    {
        address_script(self.address.as_str())
    }
}

/// The testnet P2WPKH address of a hex public key; `None` where the key does
/// not parse (or is uncompressed).
pub fn pubkey_to_address(pubkey_hex: &str) -> (r: Option<String>)
    ensures
        match btc_pubkey_bytes(pubkey_hex@) {
            Some(k) => match r {
                Some(a) => p2wpkh_testnet_spec(k) == Some(a@),
                None => p2wpkh_testnet_spec(k) is None,
            },
            None => r is None,
        },
{
    match parse_btc_pubkey(pubkey_hex) {
        Some(pk) => p2wpkh_testnet(pk.as_slice()),
        None => None,
    }
}

// ── Signed messages ───────────────────────────────────────────────────────────

/// The magic prefix of Bitcoin signed messages: a length byte (24) and
/// "Bitcoin Signed Message:\n".
pub open spec fn signed_message_prefix() -> Seq<u8> {
    seq![24u8] + crate::crypto::utf8("Bitcoin Signed Message:\n"@)
}

/// The bytes that a Bitcoin message signature commits to: the prefix, the
/// message's byte length as one byte (mod 256), and the message's bytes.
pub open spec fn signed_message_data_spec(message: Seq<char>) -> Seq<u8> {
    let b = crate::crypto::utf8(message);
    signed_message_prefix() + seq![(b.len() % 256) as u8] + b
}

/// The bytes that a Bitcoin message signature commits to.
pub fn signed_message_data(message: &str) -> (r: Vec<u8>)
    ensures
        r@ == signed_message_data_spec(message@),
{
    let prefix = "Bitcoin Signed Message:\n";
    let mut data: Vec<u8> = Vec::new();
    data.push(24u8);
    let pb = prefix.as_bytes();
    let mut i: usize = 0;
    while i < pb.len()
        invariant
            0 <= i <= pb@.len(),
            data@ == seq![24u8] + pb@.take(i as int),
        decreases pb@.len() - i,
    {
        data.push(pb[i]);
        proof {
            assert(pb@.take(i + 1) =~= pb@.take(i as int).push(pb@[i as int]));
        }
        i = i + 1;
    }
    let mb = message.as_bytes();
    let n: usize = mb.len();
    data.push((n % 256) as u8);
    let ghost base = data@;
    let mut j: usize = 0;
    while j < n
        invariant
            0 <= j <= n,
            n == mb@.len(),
            data@ == base + mb@.take(j as int),
        decreases n - j,
    {
        data.push(mb[j]);
        proof {
            assert(mb@.take(j + 1) =~= mb@.take(j as int).push(mb@[j as int]));
        }
        j = j + 1;
    }
    proof {
        assert(pb@.take(pb@.len() as int) =~= pb@);
        assert(mb@.take(n as int) =~= mb@);
        assert(data@ =~= signed_message_data_spec(message@));
    }
    data
}

/// The digest that a Bitcoin message signature signs: double SHA-256 of the
/// committed bytes.
pub fn signed_message_hash(message: &str) -> (r: [u8; 32])
    ensures
        r@ == sha256d_spec(signed_message_data_spec(message@)),
{
    let data = signed_message_data(message);
    sha256d(data.as_slice())
}

/// The bytes of `b` from position `from` on.
fn bytes_from(b: &[u8], from: usize) -> (r: Vec<u8>)
    requires
        from <= b@.len(),
    ensures
        r@ == b@.subrange(from as int, b@.len() as int),
{
    let mut out: Vec<u8> = Vec::new();
    let mut i: usize = from;
    while i < b.len()
        invariant
            from <= i <= b@.len(),
            out@ == b@.subrange(from as int, i as int),
        decreases b@.len() - i,
    {
        out.push(b[i]);
        proof {
            assert(b@.subrange(from as int, i + 1) =~= b@.subrange(from as int, i as int).push(b@[i as int]));
        }
        i = i + 1;
    }
    out
}

/// The recovery id that the header byte of a signature encodes:
/// `(header - 27) & 3`, the subtraction wrapping.
pub open spec fn recid_of(header: u8) -> i32 {
    (((header as int - 27) % 256) % 4) as i32
}

/// What `verify_signature` answers: the key parses, the signature decodes to
/// 65 bytes, and the key recovered from the message digest, the last 64
/// bytes and the header's recovery id is that key.
pub open spec fn signature_valid(message: Seq<char>, signature_base64: Seq<char>, pubkey_hex: Seq<char>) -> bool {
    match (secp_pubkey_point(pubkey_hex), base64_decode_spec(signature_base64)) {
        (Some(pk), Some(b)) => b.len() == 65 && ecdsa_recover_spec(
            sha256d_spec(signed_message_data_spec(message)),
            b.subrange(1, 65),
            recid_of(b[0]),
        ) == Some(pk),
        _ => false,
    }
}

/// Checks a base64 Bitcoin message signature (65 bytes: header and compact
/// signature) of `message` against a hex public key, by recovering the
/// signing key from the message digest and comparing the two keys (by their
/// compressed form, which is how `secp256k1` compares keys).
pub fn verify_signature(message: &str, signature_base64: &str, pubkey_hex: &str) -> (r: bool)
    ensures
        r == signature_valid(message@, signature_base64@, pubkey_hex@),
{
    let pubkey = match parse_secp_pubkey(pubkey_hex) {
        Some(pk) => pk,
        None => return false,
    };
    let sig_bytes = match base64_decode(signature_base64) {
        Some(b) => b,
        None => return false,
    };
    if sig_bytes.len() != 65 {
        return false;
    }
    let h: u8 = sig_bytes[0];
    let low: u8 = h.wrapping_sub(27) & 3u8;
    proof {
        assert(low == (h.wrapping_sub(27)) % 4) by (bit_vector)
            requires
                low == h.wrapping_sub(27) & 3u8,
        ;
        assert(h.wrapping_sub(27) == (h as int - 27) % 256);
    }
    let id_num: i32 = low as i32;
    let compact = bytes_from(sig_bytes.as_slice(), 1);
    let digest = signed_message_hash(message);
    match recover_compressed(digest, compact.as_slice(), id_num) {
        Some(recovered) => {
            let same = bytes_eq(&recovered, &pubkey);
            proof {
                assert(same == (recovered@ == pubkey@));
            }
            same
        },
        None => false,
    }
}

/// The two 33-byte keys are equal.
fn bytes_eq(a: &[u8; 33], b: &[u8; 33]) -> (r: bool)
    ensures
        r == (a@ == b@),
{
    let mut i: usize = 0;
    while i < 33
        invariant
            0 <= i <= 33,
            a@.len() == 33,
            b@.len() == 33,
            forall|k: int| 0 <= k < i ==> a@[k] == b@[k],
        decreases 33 - i,
    {
        if a[i] != b[i] {
            return false;
        }
        i = i + 1;
    }
    proof {
        assert(a@ =~= b@);
    }
    true
}

} // verus!
