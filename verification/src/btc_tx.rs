//! Building and signing legacy (P2PKH) Bitcoin transactions: choosing the
//! unspent outputs that pay for them, and signing every input with the
//! wallet's key.

use vstd::prelude::*;
use std::str::FromStr;
use bitcoin::{Transaction, TxIn, TxOut, OutPoint, Txid, Script};
use bitcoin::hashes::Hash as _;
use bitcoin::absolute::LockTime;
use bitcoin::sighash::SighashCache;
use bitcoin::secp256k1::{Secp256k1, SecretKey, Message};
use bitcoin::script::{Builder, PushBytesBuf};
use crate::btc_api::Utxo;
use crate::text::{hex_decode_spec, is_hex_char};
use crate::wallet::wif_key;

verus! {

// ── A transaction as plain values ─────────────────────────────────────────────

/// A Bitcoin transaction as plain values: its version and lock time, each
/// input's previous transaction id (32 bytes, in the byte order of the
/// hash), output index and unlocking script, and each output's value and
/// locking script.
#[derive(Clone, Debug)]
pub struct PlainTx {
    pub version: i32,
    pub lock_time: u32,
    pub inputs: Vec<([u8; 32], u32, Vec<u8>)>,
    pub outputs: Vec<(u64, Vec<u8>)>,
}

pub open spec fn inputs_view(ins: Seq<([u8; 32], u32, Vec<u8>)>) -> Seq<(Seq<u8>, u32, Seq<u8>)> {
    ins.map_values(|x: ([u8; 32], u32, Vec<u8>)| (x.0@, x.1, x.2@))
}

pub open spec fn outputs_view(outs: Seq<(u64, Vec<u8>)>) -> Seq<(u64, Seq<u8>)> {
    outs.map_values(|o: (u64, Vec<u8>)| (o.0, o.1@))
}

pub open spec fn outpoints_view(ins: Seq<([u8; 32], u32)>) -> Seq<(Seq<u8>, u32)> {
    ins.map_values(|x: ([u8; 32], u32)| (x.0@, x.1))
}

/// The transaction as a value: version, lock time, inputs, outputs.
pub open spec fn tx_view(t: PlainTx) -> (i32, u32, Seq<(Seq<u8>, u32, Seq<u8>)>, Seq<(u64, Seq<u8>)>) {
    (t.version, t.lock_time, inputs_view(t.inputs@), outputs_view(t.outputs@))
}

// ── Transaction ids ───────────────────────────────────────────────────────────

/// The 32 bytes of a transaction id written as 64 hex digits (either case):
/// the bytes that the digits spell, last pair first, as
/// `bitcoin::Txid::from_str` reads them; `None` for any other text.
pub open spec fn txid_spec(s: Seq<char>) -> Option<Seq<u8>> {
    if s.len() == 64 && hex_decode_spec(s) is Some {
        Some(hex_decode_spec(s)->0.reverse())
    } else {
        None
    }
}

/// `bitcoin::Txid::from_str` accepts the text.
pub open spec fn txid_parses(s: Seq<char>) -> bool {
    txid_spec(s) is Some
}

/// Calls `bitcoin::Txid::from_str` and gives the id's bytes. Claimed, as the
/// source shows (`HexIterator` over the text's bytes, reversed, into 32
/// bytes): an id comes back exactly for 64 hex digits, with the bytes that
/// `txid_spec` says. The error's message is not claimed.
#[verifier::external_body]
pub(crate) fn parse_txid(s: &str) -> (r: Result<[u8; 32], String>)
    ensures
        r is Ok <==> txid_parses(s@),
        r matches Ok(b) ==> txid_spec(s@) == Some(b@),
{
    match Txid::from_str(s) {
        Ok(t) => Ok(t.to_byte_array()),
        Err(e) => Err(e.to_string()),
    }
}

// ── Names for what the outside crates compute ────────────────────────────────

/// The legacy signature hash (`SighashCache::legacy_signature_hash` with
/// `SIGHASH_ALL`) of input `index` spending an output locked by
/// `prev_script`, of the transaction with this version, lock time, inputs
/// (each with sequence `MAX` and no witness) and outputs.
pub uninterp spec fn legacy_sighash_spec(
    version: i32,
    lock_time: u32,
    inputs: Seq<(Seq<u8>, u32, Seq<u8>)>,
    outputs: Seq<(u64, Seq<u8>)>,
    index: int,
    prev_script: Seq<u8>,
) -> Seq<u8>;

/// The DER encoding of the ECDSA signature (RFC 6979 nonce, low S) that
/// `Secp256k1::sign_ecdsa` makes of a 32-byte digest with a secret key.
pub uninterp spec fn ecdsa_der_spec(digest: Seq<u8>, secret: Seq<u8>) -> Seq<u8>;

/// The public key of a secret key, as `bitcoin::PublicKey::to_bytes` writes
/// it (33 bytes compressed, 65 uncompressed).
pub uninterp spec fn public_key_spec(secret: Seq<u8>, compressed: bool) -> Seq<u8>;

/// The secret is one that a WIF text gives.
pub open spec fn wif_secret(secret: Seq<u8>) -> bool {
    exists|s: Seq<char>| #[trigger] wif_key(s) matches Some(k) && k.0 == secret
}

// ── Wrappers ──────────────────────────────────────────────────────────────────

/// Builds the `bitcoin::Transaction` of the plain one (inputs with sequence
/// `MAX` and no witness, as `TxIn::default` has them; scripts through
/// `ScriptBuf::from`) and calls `SighashCache::legacy_signature_hash` for
/// input `i` with the previous output's script and `SIGHASH_ALL`, giving the
/// digest's bytes. Claimed, as the source shows: it fails only for an input
/// past the last (hashing into an engine cannot fail), and the digest is the
/// one `legacy_sighash_spec` names.
#[verifier::external_body]
fn legacy_sighash(tx: &PlainTx, i: usize, prev_script: &[u8]) -> (r: Result<[u8; 32], String>)
    ensures
        r is Err ==> i >= tx.inputs@.len(),
        r matches Ok(d) ==> d@ == legacy_sighash_spec(
            tx.version,
            tx.lock_time,
            inputs_view(tx.inputs@),
            outputs_view(tx.outputs@),
            i as int,
            prev_script@,
        ),
{
    let t = Transaction {
        version: tx.version,
        lock_time: LockTime::from_consensus(tx.lock_time),
        input: tx.inputs.iter().map(|x| TxIn { previous_output: OutPoint::new(Txid::from_byte_array(x.0), x.1), script_sig: x.2.clone().into(), ..Default::default() }).collect(),
        output: tx.outputs.iter().map(|o| TxOut { value: o.0, script_pubkey: o.1.clone().into() }).collect(),
    };
    let h = SighashCache::new(&t).legacy_signature_hash(i, Script::from_bytes(prev_script), 1);
    h.map(|d| d.to_byte_array()).map_err(|e| e.to_string())
}

/// Calls `SecretKey::from_slice` (which accepts every secret that a WIF text
/// gives), `Message::from_slice` (which takes every 32-byte digest) and
/// `Secp256k1::sign_ecdsa`, giving the DER encoding. Claimed: the bytes
/// `ecdsa_der_spec` names, at most 72 of them (the capacity of
/// `SerializedSignature`).
#[verifier::external_body]
fn sign_der(digest: [u8; 32], secret: [u8; 32]) -> (r: Vec<u8>)
    requires
        wif_secret(secret@),
    ensures
        r@ == ecdsa_der_spec(digest@, secret@),
        r@.len() <= 72,
{
    let sk = SecretKey::from_slice(&secret).expect("secret from a WIF key");
    let msg = Message::from_slice(&digest).expect("32-byte digest");
    Secp256k1::new().sign_ecdsa(&msg, &sk).serialize_der().to_vec()
}

/// Calls `SecretKey::from_slice`, `SecretKey::public_key` and
/// `bitcoin::PublicKey::to_bytes`. Claimed: the bytes `public_key_spec`
/// names, 33 of them for a compressed key and 65 otherwise.
#[verifier::external_body]
fn public_key_bytes(secret: [u8; 32], compressed: bool) -> (r: Vec<u8>)
    requires
        wif_secret(secret@),
    ensures
        r@ == public_key_spec(secret@, compressed),
        r@.len() == if compressed { 33nat } else { 65nat },
{
    let sk = SecretKey::from_slice(&secret).expect("secret from a WIF key");
    bitcoin::PublicKey { compressed, inner: sk.public_key(&Secp256k1::new()) }.to_bytes()
}

/// One push of `d` as `script::Builder::push_slice` writes it for fewer than
/// 76 bytes: the length, then the bytes.
pub open spec fn short_push(d: Seq<u8>) -> Seq<u8> {
    seq![d.len() as u8] + d
}

/// Builds the script `<sig> <pubkey>` with `script::Builder::push_slice`,
/// each through `PushBytesBuf::try_from`, and gives its bytes. Claimed, as
/// the source shows: pushes of fewer than 76 bytes are written as the length
/// byte and the data, and `try_from` refuses only 2^32 bytes or more.
#[verifier::external_body]
fn p2pkh_script_sig(sig: Vec<u8>, pubkey: Vec<u8>) -> (r: Result<Vec<u8>, String>)
    ensures
        r is Err ==> sig@.len() >= 76 || pubkey@.len() >= 76,
        r matches Ok(b) ==> (sig@.len() < 76 && pubkey@.len() < 76 ==> b@ == short_push(sig@)
            + short_push(pubkey@)),
{
    let s = match PushBytesBuf::try_from(sig) {
        Ok(s) => s,
        Err(e) => return Err(e.to_string()),
    };
    let p = match PushBytesBuf::try_from(pubkey) {
        Ok(p) => p,
        Err(e) => return Err(e.to_string()),
    };
    Ok(Builder::new().push_slice(&s).push_slice(&p).into_script().into_bytes())
}

/// Builds the script `OP_RETURN <data>` with `script::Builder`, the data
/// through `PushBytesBuf::try_from`, and gives its bytes. Claimed, as the
/// source shows: 32 bytes of data are taken and pushed with the one-byte
/// length opcode, so the script is `0x6a 0x20` and the data.
#[verifier::external_body]
pub(crate) fn op_return_script(data: Vec<u8>) -> (r: Result<Vec<u8>, String>)
    ensures
        r is Err ==> data@.len() != 32,
        r matches Ok(b) ==> (data@.len() == 32 ==> b@ == seq![0x6au8, 0x20u8] + data@),
{
    match PushBytesBuf::try_from(data) {
        Ok(d) => Ok(Builder::new().push_opcode(bitcoin::opcodes::all::OP_RETURN).push_slice(&d).into_script().into_bytes()),
        Err(e) => Err(e.to_string()),
    }
}

// ── Building ──────────────────────────────────────────────────────────────────

/// The unsigned transaction: version 2, lock time zero, one input per
/// outpoint with an empty unlocking script, the outputs as given.
pub open spec fn unsigned_spec(ins: Seq<(Seq<u8>, u32)>, outs: Seq<(u64, Seq<u8>)>) -> (
    i32,
    u32,
    Seq<(Seq<u8>, u32, Seq<u8>)>,
    Seq<(u64, Seq<u8>)>,
) {
    (2i32, 0u32, ins.map_values(|x: (Seq<u8>, u32)| (x.0, x.1, Seq::<u8>::empty())), outs)
}

/// A version-2 transaction with lock time zero spending the outpoints, each
/// with an empty unlocking script, and paying the outputs, in the given
/// orders.
pub fn unsigned_tx(inputs: Vec<([u8; 32], u32)>, outputs: Vec<(u64, Vec<u8>)>) -> (r: PlainTx)
    ensures
        tx_view(r) == unsigned_spec(outpoints_view(inputs@), outputs_view(outputs@)),
{
    let mut ins: Vec<([u8; 32], u32, Vec<u8>)> = Vec::new();
    let mut i: usize = 0;
    while i < inputs.len()
        invariant
            0 <= i <= inputs@.len(),
            inputs_view(ins@) == unsigned_spec(outpoints_view(inputs@.take(i as int)), Seq::empty()).2,
        decreases inputs@.len() - i,
    {
        let x = inputs[i];
        let ghost before = ins@;
        ins.push((x.0, x.1, Vec::new()));
        proof {
            assert(inputs@.take(i + 1) =~= inputs@.take(i as int).push(x));
            assert(inputs_view(ins@) =~= inputs_view(before).push((x.0@, x.1, Seq::<u8>::empty())));
            assert(outpoints_view(inputs@.take(i + 1)) =~= outpoints_view(inputs@.take(i as int)).push((x.0@, x.1)));
            assert(unsigned_spec(outpoints_view(inputs@.take(i + 1)), Seq::empty()).2 =~= unsigned_spec(
                outpoints_view(inputs@.take(i as int)),
                Seq::empty(),
            ).2.push((x.0@, x.1, Seq::<u8>::empty())));
        }
        i = i + 1;
    }
    proof {
        assert(inputs@.take(inputs@.len() as int) =~= inputs@);
    }
    PlainTx { version: 2, lock_time: 0, inputs: ins, outputs }
}

// ── Choosing inputs ───────────────────────────────────────────────────────────

/// Sum of the values of the outputs.
pub open spec fn utxo_sum(us: Seq<Utxo>) -> int
    decreases us.len(),
{
    if us.len() == 0 {
        0
    } else {
        utxo_sum(us.drop_last()) + us.last().value
    }
}

/// How many leading outputs are spent to reach `need`: the fewest whose
/// values sum to at least `need` (at least one), or all of them where they
/// never do.
pub open spec fn inputs_used(us: Seq<Utxo>, need: int) -> int
    decreases us.len(),
{
    if us.len() == 0 {
        0
    } else if us[0].value >= need {
        1
    } else {
        1 + inputs_used(us.drop_first(), need - us[0].value)
    }
}

/// The outpoints that spend the outputs: each one's transaction id (as
/// bytes) and index.
pub open spec fn outpoints_spec(us: Seq<Utxo>) -> Seq<(Seq<u8>, u32)> {
    us.map_values(|u: Utxo| (txid_spec(u.txid@)->0, u.vout))
}

/// Position of the first output whose transaction id does not parse, or
/// -1.
pub open spec fn first_bad_txid(us: Seq<Utxo>) -> int
    decreases us.len(),
{
    if us.len() == 0 {
        -1
    } else if !txid_parses(us[0].txid@) {
        0
    } else {
        let r = first_bad_txid(us.drop_first());
        if r < 0 {
            -1
        } else {
            r + 1
        }
    }
}

pub proof fn lemma_utxo_sum_push(us: Seq<Utxo>, i: int)
    requires
        0 <= i < us.len(),
    ensures
        utxo_sum(us.take(i + 1)) == utxo_sum(us.take(i)) + us[i].value,
{
    assert(us.take(i + 1).drop_last() =~= us.take(i));
}

pub proof fn lemma_utxo_sum_mono(us: Seq<Utxo>, i: int, j: int)
    requires
        0 <= i <= j <= us.len(),
    ensures
        utxo_sum(us.take(i)) <= utxo_sum(us.take(j)),
    decreases j - i,
{
    if i < j {
        lemma_utxo_sum_push(us, j - 1);
        lemma_utxo_sum_mono(us, i, j - 1);
    }
}

/// Spending proceeds output by output: before reaching `need`, the count
/// still to come is that of the rest against what is still missing.
proof fn lemma_inputs_used_step(us: Seq<Utxo>, need: int, i: int)
    requires
        0 <= i <= us.len(),
        forall|j: int| 1 <= j <= i ==> utxo_sum(#[trigger] us.take(j)) < need,
    ensures
        inputs_used(us, need) == i + inputs_used(us.skip(i), need - utxo_sum(us.take(i))),
    decreases i,
{
    if i > 0 {
        lemma_utxo_sum_push(us, 0);
        assert(us.take(0).len() == 0);
        assert(utxo_sum(us.take(1)) < need);
        let t = us.drop_first();
        assert forall|j: int| 1 <= j <= i - 1 implies utxo_sum(#[trigger] t.take(j)) < need - us[0].value by {
            lemma_sum_shift(us, j);
            assert(utxo_sum(us.take(j + 1)) < need);
        }
        lemma_inputs_used_step(t, need - us[0].value, i - 1);
        assert(t.skip(i - 1) =~= us.skip(i));
        lemma_sum_shift(us, i - 1);
    } else {
        assert(us.skip(0) =~= us);
        assert(us.take(0).len() == 0);
    }
}

proof fn lemma_inputs_used_bounds(us: Seq<Utxo>, need: int)
    ensures
        0 <= inputs_used(us, need) <= us.len(),
        us.len() > 0 ==> inputs_used(us, need) >= 1,
    decreases us.len(),
{
    if us.len() > 0 {
        lemma_inputs_used_bounds(us.drop_first(), need - us[0].value);
    }
}

/// Where the chosen outputs fall short of `need`, all of them were chosen.
pub proof fn lemma_inputs_used_all(us: Seq<Utxo>, need: int)
    ensures
        utxo_sum(us.take(inputs_used(us, need))) < need ==> inputs_used(us, need) == us.len()
            && us.take(inputs_used(us, need)) == us,
    decreases us.len(),
{
    if us.len() > 0 {
        lemma_utxo_sum_push(us, 0);
        assert(us.take(0).len() == 0);
        if us[0].value < need {
            let t = us.drop_first();
            lemma_inputs_used_all(t, need - us[0].value);
            lemma_inputs_used_bounds(t, need - us[0].value);
            let k1 = inputs_used(t, need - us[0].value);
            lemma_sum_shift(us, k1);
        }
    }
    assert(us.take(us.len() as int) =~= us);
}

/// The sum of the first `j + 1` outputs is the first value plus the sum of
/// the next `j`.
proof fn lemma_sum_shift(us: Seq<Utxo>, j: int)
    requires
        0 <= j < us.len(),
    ensures
        utxo_sum(us.take(j + 1)) == us[0].value + utxo_sum(us.drop_first().take(j)),
    decreases j,
{
    if j > 0 {
        lemma_utxo_sum_push(us, j);
        lemma_utxo_sum_push(us.drop_first(), j - 1);
        assert(us.drop_first()[j - 1] == us[j]);
        lemma_sum_shift(us, j - 1);
    } else {
        assert(us.take(1).drop_last() =~= Seq::<Utxo>::empty());
        assert(us.drop_first().take(0) =~= Seq::<Utxo>::empty());
    }
}

proof fn lemma_first_bad_txid(us: Seq<Utxo>, i: int)
    requires
        0 <= i <= us.len(),
        forall|j: int| 0 <= j < i ==> txid_parses(#[trigger] us[j].txid@),
    ensures
        i < us.len() && !txid_parses(us[i].txid@) ==> first_bad_txid(us) == i,
        first_bad_txid(us.take(i)) == -1,
    decreases i,
{
    if i > 0 {
        let t = us.drop_first();
        assert forall|j: int| 0 <= j < i - 1 implies txid_parses(#[trigger] t[j].txid@) by {
            assert(t[j] == us[j + 1]);
        }
        lemma_first_bad_txid(t, i - 1);
        assert(us.take(i).drop_first() =~= t.take(i - 1));
    } else {
        assert(us.take(0).len() == 0);
    }
}

/// Spends the leading outputs, in order, until their values reach `need`:
/// each one's transaction id is parsed as it is taken. The values of the
/// outputs spent must sum within `u64`.
pub fn select_inputs(utxos: &Vec<Utxo>, need: u64) -> (r: Result<(Vec<([u8; 32], u32)>, u64), String>)
    requires
        utxo_sum(utxos@.take(inputs_used(utxos@, need as int))) <= u64::MAX,
    ensures
        match r {
            Ok((ins, total)) => {
                let k = inputs_used(utxos@, need as int);
                &&& first_bad_txid(utxos@.take(k)) == -1
                &&& ins@.len() == k
                &&& total == utxo_sum(utxos@.take(k))
                &&& outpoints_view(ins@) == outpoints_spec(utxos@.take(k))
            },
            Err(_) => first_bad_txid(utxos@.take(inputs_used(utxos@, need as int))) >= 0,
        },
{
    let ghost us = utxos@;
    let mut ins: Vec<([u8; 32], u32)> = Vec::new();
    proof {
        assert(outpoints_view(ins@) =~= outpoints_spec(us.take(0)));
    }
    let mut total: u64 = 0;
    let mut i: usize = 0;
    while i < utxos.len()
        invariant
            us == utxos@,
            utxo_sum(us.take(inputs_used(us, need as int))) <= u64::MAX,
            0 <= i <= us.len(),
            total == utxo_sum(us.take(i as int)),
            forall|j: int| 1 <= j <= i ==> utxo_sum(#[trigger] us.take(j)) < need,
            forall|j: int| 0 <= j < i ==> txid_parses(#[trigger] us[j].txid@),
            ins@.len() == i,
            outpoints_view(ins@) == outpoints_spec(us.take(i as int)),
        decreases us.len() - i,
    {
        proof {
            lemma_utxo_sum_push(us, i as int);
            lemma_inputs_used_step(us, need as int, i as int);
            lemma_inputs_used_bounds(us.skip(i as int), need - utxo_sum(us.take(i as int)));
            lemma_inputs_used_bounds(us, need as int);
            lemma_utxo_sum_mono(us, i + 1, inputs_used(us, need as int));
        }
        let u = &utxos[i];
        total = total + u.value;
        match parse_txid(u.txid.as_str()) {
            Ok(t) => {
                let ghost before = ins@;
                ins.push((t, u.vout));
                proof {
                    assert(us.take(i + 1) =~= us.take(i as int).push(*u));
                    assert(outpoints_view(ins@) =~= outpoints_view(before).push((t@, u.vout)));
                    assert(outpoints_spec(us.take(i + 1)) =~= outpoints_spec(us.take(i as int)).push(
                        (t@, u.vout),
                    ));
                }
            },
            Err(e) => {
                proof {
                    lemma_inputs_used_step(us, need as int, i as int);
                    let rest = us.skip(i as int);
                    lemma_inputs_used_bounds(rest, need - utxo_sum(us.take(i as int)));
                    lemma_inputs_used_bounds(us, need as int);
                    let k = inputs_used(us, need as int);
                    assert(k >= i + 1);
                    let p = us.take(k);
                    assert forall|j: int| 0 <= j < i implies txid_parses(#[trigger] p[j].txid@) by {
                        assert(p[j] == us[j]);
                    }
                    assert(p[i as int] == us[i as int]);
                    lemma_first_bad_txid(p, i as int);
                }
                return Err(e);
            },
        }
        i = i + 1;
        if total >= need {
            proof {
                lemma_inputs_used_step(us, need as int, (i - 1) as int);
                let rest = us.skip(i - 1);
                assert(rest[0] == us[i - 1]);
                assert(inputs_used(us, need as int) == i);
                lemma_first_bad_txid(us, i as int);
            }
            return Ok((ins, total));
        }
    }
    proof {
        lemma_inputs_used_step(us, need as int, i as int);
        assert(us.skip(i as int).len() == 0);
        assert(inputs_used(us, need as int) == i);
        lemma_first_bad_txid(us, i as int);
    }
    Ok((ins, total))
}

// ── Signing ───────────────────────────────────────────────────────────────────

/// The unlocking script of input `i` of `t`, spending an output locked by
/// `prev`: the DER signature of the input's legacy sighash followed by
/// `SIGHASH_ALL`, then the public key, each pushed with its length.
pub open spec fn script_sig_spec(
    t: (i32, u32, Seq<(Seq<u8>, u32, Seq<u8>)>, Seq<(u64, Seq<u8>)>),
    i: int,
    prev: Seq<u8>,
    secret: Seq<u8>,
    compressed: bool,
) -> Seq<u8> {
    let sig = ecdsa_der_spec(legacy_sighash_spec(t.0, t.1, t.2, t.3, i, prev), secret).push(1u8);
    short_push(sig) + short_push(public_key_spec(secret, compressed))
}

/// `t` with the unlocking script of every input set as `script_sig_spec`
/// says, each signature taken over `t` itself.
pub open spec fn signed_spec(
    t: (i32, u32, Seq<(Seq<u8>, u32, Seq<u8>)>, Seq<(u64, Seq<u8>)>),
    prev: Seq<u8>,
    secret: Seq<u8>,
    compressed: bool,
) -> (i32, u32, Seq<(Seq<u8>, u32, Seq<u8>)>, Seq<(u64, Seq<u8>)>) {
    (
        t.0,
        t.1,
        Seq::new(
            t.2.len(),
            |i: int| (t.2[i].0, t.2[i].1, script_sig_spec(t, i, prev, secret, compressed)),
        ),
        t.3,
    )
}

/// Signs every input of the transaction, each spending an output locked by
/// `prev_script` to the key: every digest is taken of the transaction as
/// given, then every input gets `<DER signature + SIGHASH_ALL> <public key>`.
pub fn sign_inputs(tx: &mut PlainTx, prev_script: &Vec<u8>, secret: [u8; 32], compressed: bool)
    requires
        wif_secret(secret@),
    ensures
        tx_view(*final(tx)) == signed_spec(tx_view(*old(tx)), prev_script@, secret@, compressed),
{
    let ghost t0 = tx_view(*tx);
    let n = tx.inputs.len();
    let mut sigs: Vec<Vec<u8>> = Vec::new();
    let mut i: usize = 0;
    while i < n
        invariant
            0 <= i <= n,
            n == tx.inputs@.len(),
            t0 == tx_view(*tx),
            wif_secret(secret@),
            sigs@.len() == i,
            forall|j: int|
                0 <= j < i ==> (#[trigger] sigs@[j])@ == ecdsa_der_spec(
                    legacy_sighash_spec(t0.0, t0.1, t0.2, t0.3, j, prev_script@),
                    secret@,
                ).push(1u8) && sigs@[j]@.len() <= 73,
        decreases n - i,
    {
        let digest = match legacy_sighash(tx, i, prev_script.as_slice()) {
            Ok(d) => d,
            Err(_) => {
                proof {
                    assert(false);
                }
                [0u8; 32]
            },
        };
        let mut der = sign_der(digest, secret);
        der.push(1u8);
        sigs.push(der);
        i = i + 1;
    }
    let pk = public_key_bytes(secret, compressed);
    let mut signed: Vec<([u8; 32], u32, Vec<u8>)> = Vec::new();
    let mut j: usize = 0;
    while j < n
        invariant
            0 <= j <= n,
            n == tx.inputs@.len(),
            t0 == tx_view(*tx),
            sigs@.len() == n,
            forall|k: int|
                0 <= k < n ==> (#[trigger] sigs@[k])@ == ecdsa_der_spec(
                    legacy_sighash_spec(t0.0, t0.1, t0.2, t0.3, k, prev_script@),
                    secret@,
                ).push(1u8) && sigs@[k]@.len() <= 73,
            pk@ == public_key_spec(secret@, compressed),
            pk@.len() < 76,
            signed@.len() == j,
            forall|k: int|
                0 <= k < j ==> #[trigger] inputs_view(signed@)[k] == signed_spec(
                    t0,
                    prev_script@,
                    secret@,
                    compressed,
                ).2[k],
        decreases n - j,
    {
        let x = &tx.inputs[j];
        let script = match p2pkh_script_sig(sigs[j].clone(), pk.clone()) {
            Ok(b) => b,
            Err(_) => {
                proof {
                    assert(false);
                }
                Vec::new()
            },
        };
        let ghost before = signed@;
        signed.push((x.0, x.1, script));
        proof {
            assert(inputs_view(signed@) =~= inputs_view(before).push((x.0@, x.1, script@)));
            assert(t0.2[j as int] == (x.0@, x.1, x.2@));
        }
        j = j + 1;
    }
    tx.inputs = signed;
    proof {
        assert(inputs_view(tx.inputs@) =~= signed_spec(t0, prev_script@, secret@, compressed).2);
    }
}

} // verus!
