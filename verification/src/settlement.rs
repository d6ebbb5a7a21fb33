//! The state root: a Merkle tree over all LSAT balances, and membership
//! proofs against it.
//!
//! Leaves are the SHA-256 of an address's bytes followed by its balance as
//! eight little-endian bytes, taken in ascending order of addresses. Each
//! level pairs neighbours (an odd last node is paired with itself) and hashes
//! the two 32-byte values one after the other, until one node is left.

use vstd::prelude::*;
use crate::hashing::{btc_sha256, btc_sha256_spec};
use crate::crypto::utf8;
use crate::strmap::{StrMap, assoc_get, assoc_has, key_pos, lemma_key_pos, keys_distinct};
use crate::sorting::{insertion_sort, lemma_first_not_at, law_insertion_sort_permutes};
use crate::text::{chars_of, hex_lower, to_hex, lemma_hex_lower_len, hex_decode, hex_decode_spec};
use crate::wallet::{LocalWallet, address_parses, address_script_spec};
use crate::withdraw::{WithdrawalPlan, WithdrawError, built_from_plan, sign_plan};
use crate::btc_tx::{PlainTx, utxo_sum, inputs_used, first_bad_txid, select_inputs, op_return_script, outpoints_view,
    outpoints_spec, outputs_view};

verus! {

// ── Order of addresses ───────────────────────────────────────────────────────

/// Lexicographic order of texts by character. It agrees with the byte order
/// of their UTF-8 encodings, which is how `String` compares.
pub open spec fn str_le(a: Seq<char>, b: Seq<char>) -> bool
    decreases a.len(),
{
    if a.len() == 0 {
        true
    } else if b.len() == 0 {
        false
    } else if a[0] != b[0] {
        a[0] < b[0]
    } else {
        str_le(a.drop_first(), b.drop_first())
    }
}

pub open spec fn key_order() -> spec_fn(Seq<char>, Seq<char>) -> bool {
    |a: Seq<char>, b: Seq<char>| str_le(a, b)
}

proof fn lemma_str_le_skip(a: Seq<char>, b: Seq<char>, i: int)
    requires
        0 <= i <= a.len(),
        i <= b.len(),
        forall|k: int| 0 <= k < i ==> a[k] == b[k],
    ensures
        str_le(a, b) == str_le(a.skip(i), b.skip(i)),
    decreases i,
{
    if i > 0 {
        assert(a.drop_first().skip(i - 1) =~= a.skip(i));
        assert(b.drop_first().skip(i - 1) =~= b.skip(i));
        lemma_str_le_skip(a.drop_first(), b.drop_first(), i - 1);
    } else {
        assert(a.skip(0) =~= a);
        assert(b.skip(0) =~= b);
    }
}

/// `a` sorts before or equal to `b` (`a <= b` on `String`).
pub fn str_le_exec(a: &str, b: &str) -> (r: bool)
    ensures
        r == str_le(a@, b@),
{
    let x = chars_of(a);
    let y = chars_of(b);
    let mut i: usize = 0;
    while i < x.len() && i < y.len() && x[i] == y[i]
        invariant
            0 <= i <= x@.len(),
            i <= y@.len(),
            x@ == a@,
            y@ == b@,
            forall|k: int| 0 <= k < i ==> x@[k] == y@[k],
        decreases x@.len() - i,
    {
        i = i + 1;
    }
    proof {
        lemma_str_le_skip(a@, b@, i as int);
    }
    if i == x.len() {
        true
    } else if i == y.len() {
        false
    } else {
        x[i] < y[i]
    }
}

// ── The tree ─────────────────────────────────────────────────────────────────

/// The addresses of a balance map in ascending order.
pub open spec fn sorted_keys(m: Seq<(Seq<char>, u64)>) -> Seq<Seq<char>> {
    insertion_sort(m.map_values(|e: (Seq<char>, u64)| e.0), key_order())
}

/// The first `n` little-endian bytes of `x`.
pub open spec fn le_bytes(x: nat, n: nat) -> Seq<u8>
    decreases n,
{
    if n == 0 {
        Seq::empty()
    } else {
        seq![(x % 256) as u8] + le_bytes(x / 256, (n - 1) as nat)
    }
}

proof fn lemma_le_bytes_len(x: nat, n: nat)
    ensures
        le_bytes(x, n).len() == n,
    decreases n,
{
    if n > 0 {
        lemma_le_bytes_len(x / 256, (n - 1) as nat);
    }
}

/// `x.to_le_bytes()` for a `u64`.
pub open spec fn le8(x: u64) -> Seq<u8> {
    le_bytes(x as nat, 8)
}

/// Hash of one leaf.
pub open spec fn leaf_hash_spec(addr: Seq<char>, balance: u64) -> Seq<u8> {
    btc_sha256_spec(utf8(addr) + le8(balance))
}

/// Hash of an inner node.
pub open spec fn node_hash_spec(left: Seq<u8>, right: Seq<u8>) -> Seq<u8> {
    btc_sha256_spec(left + right)
}

/// The right partner of node `2i` of a level (itself when it is last).
pub open spec fn partner(lv: Seq<Seq<u8>>, i: int) -> Seq<u8> {
    if 2 * i + 1 < lv.len() {
        lv[2 * i + 1]
    } else {
        lv[2 * i]
    }
}

/// The level above `lv`.
pub open spec fn next_level(lv: Seq<Seq<u8>>) -> Seq<Seq<u8>> {
    Seq::new(((lv.len() + 1) / 2) as nat, |i: int| node_hash_spec(lv[2 * i], partner(lv, i)))
}

/// The single node that repeated pairing of `lv` ends in.
pub open spec fn tree_root(lv: Seq<Seq<u8>>) -> Seq<u8>
    decreases lv.len(),
{
    if lv.len() <= 1 {
        lv[0]
    } else {
        tree_root(next_level(lv))
    }
}

/// The leaves of a balance map, in ascending order of addresses.
pub open spec fn leaves_spec(m: Seq<(Seq<char>, u64)>) -> Seq<Seq<u8>> {
    sorted_keys(m).map_values(|k: Seq<char>| leaf_hash_spec(k, assoc_get(m, k)->0))
}

/// The bytes `b"empty"`.
pub open spec fn empty_tag() -> Seq<u8> {
    seq![0x65u8, 0x6du8, 0x70u8, 0x74u8, 0x79u8]
}

/// The root of a balance map as bytes; an empty map has the hash of
/// `b"empty"`.
pub open spec fn merkle_root_bytes(m: Seq<(Seq<char>, u64)>) -> Seq<u8> {
    if m.len() == 0 {
        btc_sha256_spec(empty_tag())
    } else {
        tree_root(leaves_spec(m))
    }
}

/// The state root as published: the root bytes in lower-case hex.
pub open spec fn merkle_root_spec(m: Seq<(Seq<char>, u64)>) -> Seq<char> {
    hex_lower(merkle_root_bytes(m))
}

// ── Proofs of membership ─────────────────────────────────────────────────────

/// The sibling that the node at `idx` is hashed with, and whether that
/// sibling stands on the left.
pub open spec fn proof_step(lv: Seq<Seq<u8>>, idx: int) -> (Seq<u8>, bool) {
    if idx % 2 == 0 {
        (if idx + 1 < lv.len() {
            lv[idx + 1]
        } else {
            lv[idx]
        }, false)
    } else {
        (lv[idx - 1], true)
    }
}

/// The siblings met on the way from node `idx` of `lv` up to the root.
pub open spec fn proof_path(lv: Seq<Seq<u8>>, idx: int) -> Seq<(Seq<u8>, bool)>
    decreases lv.len(),
{
    if lv.len() <= 1 {
        Seq::empty()
    } else {
        seq![proof_step(lv, idx)] + proof_path(next_level(lv), idx / 2)
    }
}

/// Position of the first occurrence of `k` in `s`, or `-1`.
pub open spec fn seq_index<A>(s: Seq<A>, k: A) -> int
    decreases s.len(),
{
    if s.len() == 0 {
        -1
    } else if s[0] == k {
        0
    } else {
        let r = seq_index(s.drop_first(), k);
        if r < 0 {
            -1
        } else {
            r + 1
        }
    }
}

/// The raw proof for an address: the sibling hashes from its leaf up.
pub open spec fn merkle_proof_bytes(m: Seq<(Seq<char>, u64)>, target: Seq<char>) -> Seq<
    (Seq<u8>, bool),
> {
    proof_path(leaves_spec(m), seq_index(sorted_keys(m), target))
}

/// The proof as published: each sibling hash in lower-case hex, with
/// whether it stands on the left. No proof for an unknown address.
pub open spec fn merkle_proof_spec(m: Seq<(Seq<char>, u64)>, target: Seq<char>) -> Option<
    Seq<(Seq<char>, bool)>,
> {
    if assoc_has(m, target) {
        Some(
            merkle_proof_bytes(m, target).map_values(
                |p: (Seq<u8>, bool)| (hex_lower(p.0), p.1),
            ),
        )
    } else {
        None
    }
}

/// Hashing `h` up along a proof.
pub open spec fn fold_proof(h: Seq<u8>, path: Seq<(Seq<u8>, bool)>) -> Seq<u8>
    decreases path.len(),
{
    if path.len() == 0 {
        h
    } else {
        let up = if path[0].1 {
            node_hash_spec(path[0].0, h)
        } else {
            node_hash_spec(h, path[0].0)
        };
        fold_proof(up, path.drop_first())
    }
}

proof fn lemma_fold_proof_path(lv: Seq<Seq<u8>>, idx: int)
    requires
        0 <= idx < lv.len(),
    ensures
        fold_proof(lv[idx], proof_path(lv, idx)) == tree_root(lv),
    decreases lv.len(),
{
    if lv.len() > 1 {
        let nl = next_level(lv);
        let path = proof_path(lv, idx);
        assert(path.drop_first() =~= proof_path(nl, idx / 2));
        let h = lv[idx];
        let up = if path[0].1 {
            node_hash_spec(path[0].0, h)
        } else {
            node_hash_spec(h, path[0].0)
        };
        assert(up == nl[idx / 2]);
        lemma_fold_proof_path(nl, idx / 2);
    }
}

proof fn lemma_seq_index<A>(s: Seq<A>, k: A)
    ensures
        -1 <= seq_index(s, k) < s.len(),
        seq_index(s, k) >= 0 ==> s[seq_index(s, k)] == k,
        s.contains(k) ==> seq_index(s, k) >= 0,
        forall|j: int| 0 <= j < seq_index(s, k) ==> s[j] != k,
    decreases s.len(),
{
    if s.len() > 0 {
        lemma_seq_index(s.drop_first(), k);
        if s[0] != k {
            if s.contains(k) {
                let j = choose|j: int| 0 <= j < s.len() && s[j] == k;
                assert(s.drop_first()[j - 1] == k);
            }
            assert forall|j: int| 0 <= j < seq_index(s, k) implies s[j] != k by {
                if j > 0 {
                    assert(s[j] == s.drop_first()[j - 1]);
                }
            }
        }
    }
}

proof fn lemma_sorted_keys_contains(m: Seq<(Seq<char>, u64)>, k: Seq<char>)
    requires
        assoc_has(m, k),
    ensures
        sorted_keys(m).contains(k),
        sorted_keys(m).len() == m.len(),
{
    broadcast use vstd::seq_lib::group_to_multiset_ensures;

    lemma_key_pos(m, k);
    let ks = m.map_values(|e: (Seq<char>, u64)| e.0);
    law_insertion_sort_permutes(ks, key_order());
    assert(ks[key_pos(m, k)] == k);
    assert(ks.contains(k));
    assert(ks.to_multiset().count(k) > 0);
}

/// A published proof hashes an address's leaf up to the published root:
/// for every address in the map, folding its leaf hash along the proof
/// gives the root, and the published root and proof are the hex spellings
/// of those bytes.
pub proof fn law_proof_reconstructs_root(m: Seq<(Seq<char>, u64)>, target: Seq<char>)
    requires
        assoc_has(m, target),
    ensures
        fold_proof(leaf_hash_spec(target, assoc_get(m, target)->0), merkle_proof_bytes(m, target))
            == merkle_root_bytes(m),
        merkle_root_spec(m) == hex_lower(merkle_root_bytes(m)),
        merkle_proof_spec(m, target) == Some(
            merkle_proof_bytes(m, target).map_values(|p: (Seq<u8>, bool)| (hex_lower(p.0), p.1)),
        ),
{
    lemma_sorted_keys_contains(m, target);
    let ks = sorted_keys(m);
    lemma_seq_index(ks, target);
    let idx = seq_index(ks, target);
    let lv = leaves_spec(m);
    assert(lv[idx] == leaf_hash_spec(target, assoc_get(m, target)->0));
    lemma_key_pos(m, target);
    assert(m.len() > 0);
    lemma_fold_proof_path(lv, idx);
}

/// ⌈log2 n⌉ for `n >= 1`: how many times `n` is halved, rounding up,
/// before one is left.
pub open spec fn ceil_log2(n: nat) -> nat
    decreases n,
{
    if n <= 1 {
        0
    } else {
        1 + ceil_log2(((n + 1) / 2) as nat)
    }
}

/// `ceil_log2` is the exponent of the least power of two that is at least
/// `n`.
pub proof fn lemma_ceil_log2(n: nat)
    requires
        n >= 1,
    ensures
        n <= vstd::arithmetic::power2::pow2(ceil_log2(n)),
        ceil_log2(n) > 0 ==> vstd::arithmetic::power2::pow2((ceil_log2(n) - 1) as nat) < n,
    decreases n,
{
    vstd::arithmetic::power2::lemma2_to64();
    if n > 1 {
        let h = ((n + 1) / 2) as nat;
        lemma_ceil_log2(h);
        let c = ceil_log2(h);
        vstd::arithmetic::power2::lemma_pow2_unfold(c + 1);
        assert(ceil_log2(n) == c + 1);
        if c > 0 {
            vstd::arithmetic::power2::lemma_pow2_unfold(c);
            assert(vstd::arithmetic::power2::pow2(c) != n) by {
                if n % 2 == 1 {
                    assert(vstd::arithmetic::power2::pow2(c) % 2 == 0);
                }
            }
        }
    }
}

proof fn lemma_proof_path_len(lv: Seq<Seq<u8>>, idx: int)
    ensures
        proof_path(lv, idx).len() == ceil_log2(lv.len()),
    decreases lv.len(),
{
    if lv.len() > 1 {
        lemma_proof_path_len(next_level(lv), idx / 2);
    }
}

/// A proof has one sibling per level of the tree: ⌈log2 n⌉ of them for a
/// map of `n` balances.
pub proof fn law_proof_length(m: Seq<(Seq<char>, u64)>, target: Seq<char>)
    requires
        assoc_has(m, target),
    ensures
        merkle_proof_spec(m, target) matches Some(p) && p.len() == ceil_log2(m.len()),
{
    lemma_sorted_keys_contains(m, target);
    lemma_proof_path_len(leaves_spec(m), seq_index(sorted_keys(m), target));
}

proof fn lemma_str_le_total(a: Seq<char>, b: Seq<char>, c: Seq<char>)
    ensures
        str_le(a, a),
        str_le(a, b) || str_le(b, a),
        str_le(a, b) && str_le(b, a) ==> a == b,
        str_le(a, b) && str_le(b, c) ==> str_le(a, c),
    decreases a.len(),
{
    if a.len() > 0 {
        lemma_str_le_total(a.drop_first(), b.drop_first(), c.drop_first());
        if b.len() > 0 && a[0] == b[0] && str_le(a, b) && str_le(b, a) {
            assert(a.drop_first() == b.drop_first());
            assert(a =~= seq![a[0]] + a.drop_first());
            assert(b =~= seq![b[0]] + b.drop_first());
        }
    } else if b.len() == 0 {
        assert(a =~= b);
    }
}

/// Address order is a total order.
proof fn lemma_key_order_total()
    ensures
        vstd::relations::total_ordering(key_order()),
{
    assert forall|a: Seq<char>| #[trigger] key_order()(a, a) by {
        lemma_str_le_total(a, a, a);
    }
    assert forall|a: Seq<char>, b: Seq<char>| #[trigger] key_order()(a, b) && #[trigger] key_order()(b, a) implies a == b by {
        lemma_str_le_total(a, b, a);
    }
    assert forall|a: Seq<char>, b: Seq<char>, c: Seq<char>| #[trigger] key_order()(a, b) && #[trigger] key_order()(b, c) implies key_order()(a, c) by {
        lemma_str_le_total(a, b, c);
    }
    assert forall|a: Seq<char>, b: Seq<char>| #[trigger] key_order()(a, b) || #[trigger] key_order()(b, a) by {
        lemma_str_le_total(a, b, a);
    }
}

/// Of a map without repeated keys, each address occurs once among the keys
/// where it has an entry, never otherwise.
proof fn lemma_key_count(m: Seq<(Seq<char>, u64)>, k: Seq<char>)
    requires
        keys_distinct(m),
    ensures
        m.map_values(|e: (Seq<char>, u64)| e.0).to_multiset().count(k) == if assoc_has(m, k) {
            1nat
        } else {
            0nat
        },
    decreases m.len(),
{
    broadcast use vstd::seq_lib::group_to_multiset_ensures;

    let ks = m.map_values(|e: (Seq<char>, u64)| e.0);
    if m.len() > 0 {
        let p = m.drop_last();
        assert(keys_distinct(p));
        lemma_key_count(p, k);
        assert(ks =~= p.map_values(|e: (Seq<char>, u64)| e.0).push(m.last().0));
        lemma_key_pos(m, k);
        lemma_key_pos(p, k);
        if m.last().0 == k {
            assert forall|j: int| 0 <= j < p.len() implies p[j].0 != k by {
                assert(m[j] == p[j]);
            }
            assert(!assoc_has(p, k));
        } else {
            if assoc_has(p, k) {
                assert(m[key_pos(p, k)].0 == k);
            }
            if assoc_has(m, k) {
                assert(p[key_pos(m, k)].0 == k);
            }
        }
    }
}

/// The state root depends on the balances alone, not on the order in which
/// the accounts were entered: two maps without repeated keys that give
/// every address the same balance have the same root. Every `StrMap` is
/// such a map (its type invariant, which `StrMap::len` states).
pub proof fn law_root_order_free(m1: Seq<(Seq<char>, u64)>, m2: Seq<(Seq<char>, u64)>)
    requires
        keys_distinct(m1),
        keys_distinct(m2),
        forall|k: Seq<char>| #[trigger] assoc_get(m1, k) == assoc_get(m2, k),
    ensures
        merkle_root_spec(m1) == merkle_root_spec(m2),
{
    broadcast use vstd::seq_lib::group_to_multiset_ensures;

    let k1 = m1.map_values(|e: (Seq<char>, u64)| e.0);
    let k2 = m2.map_values(|e: (Seq<char>, u64)| e.0);
    assert forall|k: Seq<char>| k1.to_multiset().count(k) == #[trigger] k2.to_multiset().count(k) by {
        lemma_key_count(m1, k);
        lemma_key_count(m2, k);
        assert(assoc_get(m1, k) == assoc_get(m2, k));
    }
    assert(k1.to_multiset() =~= k2.to_multiset());
    law_insertion_sort_permutes(k1, key_order());
    law_insertion_sort_permutes(k2, key_order());
    lemma_key_order_total();
    crate::sorting::law_insertion_sort_sorted(k1, key_order());
    crate::sorting::law_insertion_sort_sorted(k2, key_order());
    vstd::seq_lib::lemma_sorted_unique(sorted_keys(m1), sorted_keys(m2), key_order());
    assert(sorted_keys(m1) == sorted_keys(m2));
    assert(m1.len() == k1.to_multiset().len());
    assert(m2.len() == k2.to_multiset().len());
    assert(leaves_spec(m1) =~= leaves_spec(m2));
}

// ── Building the tree ────────────────────────────────────────────────────────

/// `x.to_le_bytes()`.
pub fn u64_le_bytes(x: u64) -> (r: Vec<u8>)
    ensures
        r@ == le8(x),
        r@.len() == 8,
{
    proof {
        lemma_le_bytes_len(x as nat, 8);
    }
    let mut out: Vec<u8> = Vec::new();
    let mut v: u64 = x;
    let mut i: usize = 0;
    while i < 8
        invariant
            0 <= i <= 8,
            out@ + le_bytes(v as nat, (8 - i) as nat) == le8(x),
        decreases 8 - i,
    {
        proof {
            assert(le_bytes(v as nat, (8 - i) as nat) == seq![(v % 256) as u8] + le_bytes(
                (v / 256) as nat,
                (8 - i - 1) as nat,
            ));
            assert(out@.push((v % 256) as u8) + le_bytes((v / 256) as nat, (8 - i - 1) as nat)
                =~= out@ + le_bytes(v as nat, (8 - i) as nat));
        }
        out.push((v % 256) as u8);
        v = v / 256;
        i = i + 1;
    }
    proof {
        assert(out@ + le_bytes(v as nat, 0) =~= out@);
    }
    out
}

/// Hash of the leaf for `addr` holding `balance`.
pub fn hash_leaf(addr: &str, balance: u64) -> (r: [u8; 32])
    ensures
        r@ == leaf_hash_spec(addr@, balance),
{
    let a = addr.as_bytes();
    let mut data: Vec<u8> = Vec::new();
    let mut i: usize = 0;
    while i < a.len()
        invariant
            0 <= i <= a@.len(),
            data@ == a@.take(i as int),
        decreases a@.len() - i,
    {
        data.push(a[i]);
        proof {
            assert(a@.take(i + 1) =~= a@.take(i as int).push(a@[i as int]));
        }
        i = i + 1;
    }
    let le = u64_le_bytes(balance);
    let mut j: usize = 0;
    while j < 8
        invariant
            0 <= j <= 8,
            le@.len() == 8,
            data@ == a@ + le@.take(j as int),
        decreases 8 - j,
    {
        data.push(le[j]);
        proof {
            assert(le@.take(j + 1) =~= le@.take(j as int).push(le@[j as int]));
        }
        j = j + 1;
    }
    proof {
        assert(a@ =~= a@.take(a@.len() as int));
        assert(le@.take(8) =~= le@);
    }
    btc_sha256(data.as_slice())
}

/// Hash of an inner node.
pub fn hash_node(left: &[u8; 32], right: &[u8; 32]) -> (r: [u8; 32])
    ensures
        r@ == node_hash_spec(left@, right@),
{
    let mut data: Vec<u8> = Vec::new();
    let mut i: usize = 0;
    while i < 32
        invariant
            0 <= i <= 32,
            data@ == left@.take(i as int),
        decreases 32 - i,
    {
        data.push(left[i]);
        proof {
            assert(left@.take(i + 1) =~= left@.take(i as int).push(left@[i as int]));
        }
        i = i + 1;
    }
    let mut j: usize = 0;
    while j < 32
        invariant
            0 <= j <= 32,
            data@ == left@ + right@.take(j as int),
        decreases 32 - j,
    {
        data.push(right[j]);
        proof {
            assert(right@.take(j + 1) =~= right@.take(j as int).push(right@[j as int]));
        }
        j = j + 1;
    }
    proof {
        assert(left@ =~= left@.take(32));
        assert(right@.take(32) =~= right@);
    }
    btc_sha256(data.as_slice())
}

/// The levels' view as byte sequences.
pub open spec fn level_view(v: Seq<[u8; 32]>) -> Seq<Seq<u8>> {
    v.map_values(|a: [u8; 32]| a@)
}

/// The addresses of the map, in ascending order.
fn sorted_key_refs(balances: &StrMap<u64>) -> (r: Vec<&String>)
    ensures
        r@.map_values(|k: &String| k@) == sorted_keys(balances@),
{
    let ghost le = key_order();
    let ghost ks = balances@.map_values(|e: (Seq<char>, u64)| e.0);
    let n = balances.len();
    let mut out: Vec<&String> = Vec::new();
    let mut i: usize = 0;
    while i < n
        invariant
            0 <= i <= n,
            n == balances@.len(),
            ks == balances@.map_values(|e: (Seq<char>, u64)| e.0),
            le == key_order(),
            out@.map_values(|k: &String| k@) == insertion_sort(ks.take(i as int), le),
        decreases n - i,
    {
        let k = balances.key_at(i);
        let ghost t = out@.map_values(|k: &String| k@);
        let mut j: usize = 0;
        while j < out.len() && str_le_exec(out[j].as_str(), k.as_str())
            invariant
                0 <= j <= out@.len(),
                t == out@.map_values(|k: &String| k@),
                le == key_order(),
                forall|q: int| 0 <= q < j ==> le(#[trigger] t[q], k@),
            decreases out@.len() - j,
        {
            j = j + 1;
        }
        proof {
            lemma_first_not_at(t, k@, le, j as int);
            assert(ks.take(i + 1).drop_last() =~= ks.take(i as int));
            assert(ks[i as int] == k@);
        }
        out.insert(j, k);
        proof {
            assert(out@.map_values(|k: &String| k@) =~= t.insert(j as int, k@));
        }
        i = i + 1;
    }
    proof {
        assert(ks.take(n as int) =~= ks);
    }
    out
}

/// The leaves, in ascending order of addresses.
fn build_leaves(balances: &StrMap<u64>, keys: &Vec<&String>) -> (r: Vec<[u8; 32]>)
    requires
        keys@.map_values(|k: &String| k@) == sorted_keys(balances@),
        forall|i: int| 0 <= i < keys@.len() ==> assoc_has(balances@, #[trigger] keys@[i]@),
    ensures
        level_view(r@) == leaves_spec(balances@),
{
    let mut out: Vec<[u8; 32]> = Vec::new();
    let mut i: usize = 0;
    while i < keys.len()
        invariant
            0 <= i <= keys@.len(),
            keys@.map_values(|k: &String| k@) == sorted_keys(balances@),
            forall|q: int| 0 <= q < keys@.len() ==> assoc_has(balances@, #[trigger] keys@[q]@),
            out@.len() == i,
            forall|q: int|
                0 <= q < i ==> (#[trigger] out@[q])@ == leaf_hash_spec(
                    keys@[q]@,
                    assoc_get(balances@, keys@[q]@)->0,
                ),
        decreases keys@.len() - i,
    {
        let k = keys[i];
        proof {
            assert(assoc_has(balances@, keys@[i as int]@));
        }
        let b = match balances.get(k.as_str()) {
            Some(b) => *b,
            None => 0,
        };
        out.push(hash_leaf(k.as_str(), b));
        i = i + 1;
    }
    proof {
        assert(level_view(out@) =~= leaves_spec(balances@)) by {
            assert forall|q: int| 0 <= q < out@.len() implies level_view(out@)[q]
                == leaves_spec(balances@)[q] by {
                assert(sorted_keys(balances@)[q] == keys@[q]@);
            }
        }
    }
    out
}

/// Every address in the sorted list is a key of the map.
proof fn lemma_sorted_keys_in_map(m: Seq<(Seq<char>, u64)>)
    ensures
        forall|i: int| 0 <= i < sorted_keys(m).len() ==> assoc_has(m, #[trigger] sorted_keys(m)[i]),
        sorted_keys(m).len() == m.len(),
{
    broadcast use vstd::seq_lib::group_to_multiset_ensures;

    let ks = m.map_values(|e: (Seq<char>, u64)| e.0);
    law_insertion_sort_permutes(ks, key_order());
    assert forall|i: int| 0 <= i < sorted_keys(m).len() implies assoc_has(
        m,
        #[trigger] sorted_keys(m)[i],
    ) by {
        let k = sorted_keys(m)[i];
        assert(sorted_keys(m).to_multiset().count(k) > 0);
        assert(ks.contains(k));
        let j = choose|j: int| 0 <= j < ks.len() && ks[j] == k;
        lemma_key_pos(m, k);
        assert(m[j].0 == k);
    }
}

/// One level up.
fn build_next_level(lv: &Vec<[u8; 32]>) -> (r: Vec<[u8; 32]>)
    requires
        lv@.len() >= 1,
    ensures
        level_view(r@) == next_level(level_view(lv@)),
{
    let ghost l = level_view(lv@);
    let mut out: Vec<[u8; 32]> = Vec::new();
    let n = lv.len();
    let half = n / 2 + n % 2;
    let mut q: usize = 0;
    while q < half
        invariant
            n == lv@.len(),
            l == level_view(lv@),
            half == (n + 1) / 2,
            0 <= q <= half,
            out@.len() == q,
            forall|k: int|
                0 <= k < out@.len() ==> (#[trigger] out@[k])@ == node_hash_spec(
                    l[2 * k],
                    partner(l, k),
                ),
        decreases half - q,
    {
        let i = 2 * q;
        let left = &lv[i];
        let right = if i + 1 < n {
            &lv[i + 1]
        } else {
            &lv[i]
        };
        out.push(hash_node(left, right));
        q = q + 1;
    }
    proof {
        assert(level_view(out@) =~= next_level(l));
    }
    out
}

/// Root of the tree over a non-empty level.
fn fold_levels(lv: Vec<[u8; 32]>) -> (r: [u8; 32])
    requires
        lv@.len() >= 1,
    ensures
        r@ == tree_root(level_view(lv@)),
{
    let mut cur = lv;
    while cur.len() > 1
        invariant
            cur@.len() >= 1,
            tree_root(level_view(cur@)) == tree_root(level_view(lv@)),
        decreases cur@.len(),
    {
        let next = build_next_level(&cur);
        proof {
            assert(level_view(next@).len() == next@.len());
            assert(level_view(cur@).len() == cur@.len());
            assert(tree_root(level_view(cur@)) == tree_root(next_level(level_view(cur@))));
        }
        cur = next;
    }
    proof {
        assert(level_view(cur@)[0] == cur@[0]@);
    }
    cur[0]
}

/// The state root of the balances: lower-case hex of the Merkle root (the
/// hash of `b"empty"` for no balances), always 64 hex digits.
pub fn build_merkle_root(balances: &StrMap<u64>) -> (r: String)
    ensures
        r@ == merkle_root_spec(balances@),
        r@.len() == 64,
        hex_decode_spec(r@) == Some(merkle_root_bytes(balances@)),
{
    if balances.len() == 0 {
        let tag: [u8; 5] = [0x65, 0x6d, 0x70, 0x74, 0x79];
        proof {
            assert(tag@ =~= empty_tag());
        }
        let h = btc_sha256(tag.as_slice());
        proof {
            lemma_hex_lower_len(h@);
            crate::text::law_hex_roundtrip(h@);
        }
        return to_hex(h.as_slice());
    }
    let keys = sorted_key_refs(balances);
    proof {
        lemma_sorted_keys_in_map(balances@);
        assert forall|i: int| 0 <= i < keys@.len() implies assoc_has(
            balances@,
            #[trigger] keys@[i]@,
        ) by {
            assert(keys@[i]@ == sorted_keys(balances@)[i]);
        }
    }
    let leaves = build_leaves(balances, &keys);
    proof {
        assert(level_view(leaves@).len() == leaves@.len());
        assert(leaves_spec(balances@).len() == sorted_keys(balances@).len());
    }
    let root = fold_levels(leaves);
    proof {
        lemma_hex_lower_len(root@);
        crate::text::law_hex_roundtrip(root@);
    }
    to_hex(root.as_slice())
}

/// Proof that `target` holds its balance under the state root: the sibling
/// hashes from its leaf up, each in hex with whether it stands on the left;
/// `None` for an address without a balance.
pub fn generate_merkle_proof(balances: &StrMap<u64>, target_addr: &str) -> (r: Option<
    Vec<(String, bool)>,
>)
    ensures
        match r {
            Some(p) => merkle_proof_spec(balances@, target_addr@) == Some(
                p@.map_values(|e: (String, bool)| (e.0@, e.1)),
            ),
            None => merkle_proof_spec(balances@, target_addr@) is None,
        },
{
    if !balances.contains_key(target_addr) {
        return None;
    }
    let keys = sorted_key_refs(balances);
    proof {
        lemma_sorted_keys_in_map(balances@);
        lemma_sorted_keys_contains(balances@, target_addr@);
        lemma_seq_index(sorted_keys(balances@), target_addr@);
        assert forall|i: int| 0 <= i < keys@.len() implies assoc_has(
            balances@,
            #[trigger] keys@[i]@,
        ) by {
            assert(keys@[i]@ == sorted_keys(balances@)[i]);
        }
    }
    let ghost ks = sorted_keys(balances@);
    let mut idx: usize = 0;
    while idx < keys.len() && !crate::text::str_eq(keys[idx].as_str(), target_addr)
        invariant
            0 <= idx <= keys@.len(),
            keys@.map_values(|k: &String| k@) == ks,
            ks == sorted_keys(balances@),
            0 <= seq_index(ks, target_addr@) < ks.len(),
            ks[seq_index(ks, target_addr@)] == target_addr@,
            forall|j: int| 0 <= j < seq_index(ks, target_addr@) ==> ks[j] != target_addr@,
            forall|j: int| 0 <= j < idx ==> ks[j] != target_addr@,
        decreases keys@.len() - idx,
    {
        idx = idx + 1;
    }
    proof {
        if idx < keys@.len() {
            assert(ks[idx as int] == keys@[idx as int]@);
        }
        if idx < seq_index(ks, target_addr@) || idx == keys@.len() {
            assert(ks[seq_index(ks, target_addr@)] == target_addr@);
        }
        if idx > seq_index(ks, target_addr@) {
            assert(ks[seq_index(ks, target_addr@)] != target_addr@);
        }
        assert(idx == seq_index(ks, target_addr@));
    }
    let mut level = build_leaves(balances, &keys);
    let ghost all = merkle_proof_bytes(balances@, target_addr@);
    let mut proof_out: Vec<(String, bool)> = Vec::new();
    let ghost mut done: Seq<(Seq<u8>, bool)> = Seq::empty();
    while level.len() > 1
        invariant
            0 <= idx < level@.len(),
            done + proof_path(level_view(level@), idx as int) == all,
            proof_out@.map_values(|e: (String, bool)| (e.0@, e.1)) == done.map_values(
                |p: (Seq<u8>, bool)| (hex_lower(p.0), p.1),
            ),
        decreases level@.len(),
    {
        let ghost l = level_view(level@);
        let n = level.len();
        let step: ([u8; 32], bool) = if idx % 2 == 0 {
            if idx + 1 < n {
                (level[idx + 1], false)
            } else {
                (level[idx], false)
            }
        } else {
            (level[idx - 1], true)
        };
        proof {
            assert((step.0@, step.1) == proof_step(l, idx as int));
            assert(proof_path(l, idx as int) == seq![proof_step(l, idx as int)] + proof_path(
                next_level(l),
                idx as int / 2,
            ));
        }
        let hx = to_hex(step.0.as_slice());
        let ghost old_out = proof_out@;
        let ghost old_done = done;
        proof_out.push((hx, step.1));
        proof {
            done = done.push((step.0@, step.1));
            assert(old_out.map_values(|e: (String, bool)| (e.0@, e.1)) == old_done.map_values(
                |p: (Seq<u8>, bool)| (hex_lower(p.0), p.1),
            ));
            assert(proof_out@ == old_out.push((hx, step.1)));
            assert(hx@ == hex_lower(step.0@));
            assert(old_out.map_values(|e: (String, bool)| (e.0@, e.1)).len() == old_out.len());
            assert(old_done.map_values(|p: (Seq<u8>, bool)| (hex_lower(p.0), p.1)).len()
                == old_done.len());
            assert(old_done.len() == old_out.len());
            let a = proof_out@.map_values(|e: (String, bool)| (e.0@, e.1));
            let b = done.map_values(|p: (Seq<u8>, bool)| (hex_lower(p.0), p.1));
            assert forall|k: int| 0 <= k < a.len() implies a[k] == b[k] by {
                if k < old_out.len() {
                    assert(a[k] == old_out.map_values(|e: (String, bool)| (e.0@, e.1))[k]);
                    assert(b[k] == old_done.map_values(|p: (Seq<u8>, bool)| (hex_lower(p.0), p.1))[k]);
                }
            }
            assert(proof_out@.map_values(|e: (String, bool)| (e.0@, e.1)) =~= done.map_values(
                |p: (Seq<u8>, bool)| (hex_lower(p.0), p.1),
            ));
        }
        let next = build_next_level(&level);
        level = next;
        idx = idx / 2;
        proof {
            assert(done + proof_path(level_view(level@), idx as int) =~= all);
        }
    }
    proof {
        assert(done =~= all);
    }
    Some(proof_out)
}


// ── Settlement transaction ───────────────────────────────────────────────────

/// The fee of a settlement transaction, in satoshis.
pub const SETTLEMENT_FEE_SATS: u64 = 1000;

/// The 32 bytes that a state root of 64 hex digits spells: what the
/// settlement transaction's `OP_RETURN` carries.
pub open spec fn anchor_data(state_root_hash: Seq<char>) -> Option<Seq<u8>> {
    if state_root_hash.len() == 64 {
        hex_decode_spec(state_root_hash)
    } else {
        None
    }
}

/// The outputs of a settlement: the zero-value `OP_RETURN` carrying the
/// root, then the spent value less the fee back to the wallet where that
/// leaves more than the dust limit.
pub open spec fn settlement_outputs_spec(
    wallet_address: Seq<char>,
    us: Seq<crate::btc_api::Utxo>,
    data: Seq<u8>,
) -> Seq<(u64, Seq<u8>)> {
    let total = utxo_sum(us.take(inputs_used(us, SETTLEMENT_FEE_SATS as int)));
    let anchor = seq![(0u64, seq![0x6au8, 0x20u8] + data)];
    if total > SETTLEMENT_FEE_SATS + crate::withdraw::DUST_LIMIT_SATS {
        anchor.push(((total - SETTLEMENT_FEE_SATS) as u64, address_script_spec(wallet_address)->0))
    } else {
        anchor
    }
}

/// The outcome of planning a settlement: the wallet's address must parse,
/// the root must be 64 hex digits, and the ids of the outputs spent must
/// parse; then the plan spends the wallet's leading outputs until they
/// cover the fee (all of them where they never do) and pays the outputs
/// `settlement_outputs_spec` lists.
pub open spec fn settlement_outcome_ok(
    wallet_address: Seq<char>,
    us: Seq<crate::btc_api::Utxo>,
    state_root_hash: Seq<char>,
    r: Result<WithdrawalPlan, WithdrawError>,
) -> bool {
    let k = inputs_used(us, SETTLEMENT_FEE_SATS as int);
    if !address_parses(wallet_address) {
        r matches Err(WithdrawError::WalletAddress)
    } else if anchor_data(state_root_hash) is None {
        r matches Err(WithdrawError::InvalidRoot)
    } else if first_bad_txid(us.take(k)) >= 0 {
        r matches Err(WithdrawError::InvalidTxid(_))
    } else {
        r matches Ok(p) && outpoints_view(p.inputs@) == outpoints_spec(us.take(k)) && outputs_view(
            p.outputs@,
        ) == settlement_outputs_spec(wallet_address, us, anchor_data(state_root_hash)->0)
    }
}

/// Plans the transaction that anchors a state root on Bitcoin: an
/// `OP_RETURN` carrying the 32 bytes that the root's 64 hex digits spell,
/// paid for by the wallet's leading outputs until they cover the fee, the
/// rest returned to the wallet. No shortfall is checked: outputs that do not
/// cover the fee are all spent.
pub fn plan_settlement(wallet: &LocalWallet, utxos: &Vec<crate::btc_api::Utxo>, state_root_hash: &str) -> (r: Result<
    WithdrawalPlan,
    WithdrawError,
>)
    requires
        utxo_sum(utxos@.take(inputs_used(utxos@, SETTLEMENT_FEE_SATS as int))) <= u64::MAX,
    ensures
        settlement_outcome_ok(wallet.address@, utxos@, state_root_hash@, r),
{
    let my_script = match wallet.get_address_obj() {
        Some(s) => s,
        None => return Err(WithdrawError::WalletAddress),
    };
    let data = match hex_decode(state_root_hash) {
        Some(d) => d,
        None => return Err(WithdrawError::InvalidRoot),
    };
    if state_root_hash.as_bytes().len() != 64 || data.len() != 32 {
        proof {
            if state_root_hash@.len() == 64 {
                vstd::utf8::encode_utf8_valid_utf8(state_root_hash@);
                lemma_hex_ascii_len(state_root_hash@);
            }
        }
        return Err(WithdrawError::InvalidRoot);
    }
    proof {
        lemma_hex_ascii_len(state_root_hash@);
    }
    let ghost dv = data@;
    let anchor = match op_return_script(data) {
        Ok(s) => s,
        Err(_) => {
            proof {
                assert(false);
            }
            return Err(WithdrawError::InvalidRoot);
        },
    };
    let (inputs, total_in) = match select_inputs(utxos, SETTLEMENT_FEE_SATS) {
        Ok(x) => x,
        Err(m) => return Err(WithdrawError::InvalidTxid(m)),
    };
    let mut outputs: Vec<(u64, Vec<u8>)> = Vec::new();
    outputs.push((0u64, anchor));
    if total_in > SETTLEMENT_FEE_SATS + crate::withdraw::DUST_LIMIT_SATS {
        outputs.push((total_in - SETTLEMENT_FEE_SATS, my_script));
    }
    proof {
        assert(outputs_view(outputs@) =~= settlement_outputs_spec(wallet.address@, utxos@, dv));
    }
    Ok(WithdrawalPlan { inputs, outputs })
}

/// Text made of hex digits has one byte per character.
proof fn lemma_hex_ascii_len(s: Seq<char>)
    ensures
        hex_decode_spec(s) is Some ==> utf8(s).len() == s.len(),
{
    if hex_decode_spec(s) is Some {
        assert(vstd::utf8::is_ascii_chars(s)) by {
            assert forall|i: int| 0 <= i < s.len() implies #[trigger] s[i] as u32 <= 127 by {
                assert(crate::text::is_hex_char(s[i]));
            }
        }
        vstd::utf8::is_ascii_chars_encode_utf8(s);
    }
}

/// Builds and signs the settlement transaction that `plan_settlement`
/// plans, every input spending an output of the wallet's address under the
/// wallet's key.
pub fn create_settlement_tx(wallet: &LocalWallet, utxos: Vec<crate::btc_api::Utxo>, state_root_hash: String) -> (r:
    Result<PlainTx, WithdrawError>)
    requires
        utxo_sum(utxos@.take(inputs_used(utxos@, SETTLEMENT_FEE_SATS as int))) <= u64::MAX,
    ensures
        exists|p: Result<WithdrawalPlan, WithdrawError>|
            #[trigger] settlement_outcome_ok(wallet.address@, utxos@, state_root_hash@, p)
                && built_from_plan(wallet, p, r),
{
    let plan = plan_settlement(wallet, &utxos, state_root_hash.as_str());
    match plan {
        Err(e) => Err(e),
        Ok(p) => sign_plan(wallet, p),
    }
}

} // verus!
