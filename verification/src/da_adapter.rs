//! The data-availability layer's batches and the names of the files that
//! hold them: which files are batches, snapshots or pending batches, what
//! ids and times their names carry, and which of them a recovery reads.
//!
//! Reading and writing the files is the node's I/O; the decisions below
//! are taken on the names and texts it read.

use vstd::prelude::*;
use crate::state::TxRecord;
use crate::crypto::{utf8, head_ok, head_spec, head_bytes};
use crate::hashing::{btc_sha256, btc_sha256_spec};
use crate::sorting::{insertion_sort, lemma_first_not_at};
use crate::text::{owned, push_str, starts_with, ends_with, has_prefix, has_suffix, split_second,
    second_field, parse_u64, parse_u64_spec, parse_digits_spec, chars_of, string_of, to_hex,
    hex_lower, u64_to_string, i64_to_string, dec_string, dec_string_i};

verus! {

/// A batch of ledger transactions with the state root after them.
#[derive(Clone, Debug)]
pub struct DaBatch {
    pub id: u64,
    pub timestamp: i64,
    pub hash: String,
    pub state_root: String,
    pub transactions: Vec<TxRecord>,
}

/// Where the DA layer keeps its files.
pub struct BitcoinDAAdapter {
    pub storage_path: String,
}

// ── Kinds of files ───────────────────────────────────────────────────────────

/// A committed batch: a `.json` file that is neither a snapshot nor a
/// pending batch.
pub open spec fn is_batch_file_spec(name: Seq<char>) -> bool {
    has_suffix(name, ".json"@) && !has_prefix(name, "snapshot_"@) && !has_prefix(name, "pending_"@)
}

pub fn is_batch_file(name: &str) -> (r: bool)
    ensures
        r == is_batch_file_spec(name@),
{
    ends_with(name, ".json") && !starts_with(name, "snapshot_") && !starts_with(name, "pending_")
}

/// Number of committed batch files among the names.
pub open spec fn batch_file_count(names: Seq<Seq<char>>) -> nat
    decreases names.len(),
{
    if names.len() == 0 {
        0
    } else {
        batch_file_count(names.drop_last()) + if is_batch_file_spec(names.last()) {
            1nat
        } else {
            0nat
        }
    }
}

/// Counts the committed batch files among the names of a directory.
pub fn count_batch_files(names: &Vec<String>) -> (r: usize)
    ensures
        r == batch_file_count(names@.map_values(|n: String| n@)),
{
    let ghost v = names@.map_values(|n: String| n@);
    let mut c: usize = 0;
    let mut i: usize = 0;
    while i < names.len()
        invariant
            0 <= i <= names@.len(),
            v == names@.map_values(|n: String| n@),
            c == batch_file_count(v.take(i as int)),
            c <= i,
        decreases names@.len() - i,
    {
        proof {
            assert(v.take(i + 1).drop_last() =~= v.take(i as int));
            assert(v.take(i + 1).last() == names@[i as int]@);
        }
        if is_batch_file(names[i].as_str()) {
            c = c + 1;
        }
        i = i + 1;
    }
    proof {
        assert(v.take(names@.len() as int) =~= v);
    }
    c
}

// ── What names carry ─────────────────────────────────────────────────────────

/// The id that an old-format batch file's name carries: its second
/// `_`-separated field as a number, else 0.
pub open spec fn legacy_batch_id_spec(name: Seq<char>) -> u64 {
    match second_field(name, '_') {
        Some(f) => match parse_u64_spec(f) {
            Some(v) => v,
            None => 0,
        },
        None => 0,
    }
}

pub fn legacy_batch_id(name: &str) -> (r: u64)
    ensures
        r == legacy_batch_id_spec(name@),
{
    match split_second(name, '_') {
        Some(f) => match parse_u64(f.as_str()) {
            Some(v) => v,
            None => 0,
        },
        None => 0,
    }
}

/// `i64::from_str`: an optional sign, then one or more decimal digits whose
/// value fits in an `i64`.
pub open spec fn parse_i64_spec(s: Seq<char>) -> Option<i64> {
    if s.len() > 0 && s[0] == '-' {
        match parse_digits_spec(s.drop_first()) {
            Some(v) => if v <= 0x8000_0000_0000_0000 {
                Some((0 - v) as i64)
            } else {
                None
            },
            None => None,
        }
    } else {
        match parse_u64_spec(s) {
            Some(v) => if v <= i64::MAX {
                Some(v as i64)
            } else {
                None
            },
            None => None,
        }
    }
}

/// The characters of `cs` from position `k` on.
fn chars_from(cs: &Vec<char>, k: usize) -> (r: Vec<char>)
    requires
        k <= cs@.len(),
    ensures
        r@ == cs@.skip(k as int),
{
    let mut out: Vec<char> = Vec::new();
    let mut i: usize = k;
    while i < cs.len()
        invariant
            k <= i <= cs@.len(),
            out@ == cs@.subrange(k as int, i as int),
        decreases cs@.len() - i,
    {
        out.push(cs[i]);
        proof {
            assert(cs@.subrange(k as int, i + 1) =~= cs@.subrange(k as int, i as int).push(cs@[i as int]));
        }
        i = i + 1;
    }
    proof {
        assert(cs@.subrange(k as int, cs@.len() as int) =~= cs@.skip(k as int));
    }
    out
}

/// Parses an `i64` as `str::parse::<i64>` does; `None` where it fails.
pub fn parse_i64(s: &str) -> (r: Option<i64>)
    ensures
        r == parse_i64_spec(s@),
{
    let cs = chars_of(s);
    if cs.len() > 0 && cs[0] == '-' {
        let rest_chars = chars_from(&cs, 1);
        let rest = string_of(rest_chars.as_slice());
        proof {
            assert(rest@ =~= s@.drop_first());
        }
        if rest_chars.len() > 0 && rest_chars[0] == '+' {
            proof {
                assert(!crate::text::is_digit(s@.drop_first()[0]));
            }
            return None;
        }
        match parse_u64(rest.as_str()) {
            Some(v) => {
                proof {
                    assert(crate::text::strip_plus(rest@) == rest@);
                }
                if v <= 0x8000_0000_0000_0000u64 {
                    if v == 0x8000_0000_0000_0000u64 {
                        Some(i64::MIN)
                    } else {
                        Some(0i64 - (v as i64))
                    }
                } else {
                    None
                }
            },
            None => {
                proof {
                    assert(crate::text::strip_plus(rest@) == rest@);
                }
                None
            },
        }
    } else {
        match parse_u64(s) {
            Some(v) => if v <= (i64::MAX as u64) {
                Some(v as i64)
            } else {
                None
            },
            None => None,
        }
    }
}

/// The time that a snapshot file's name carries: for a name starting with
/// `snapshot_`, its second `_`-separated field as a signed number.
pub open spec fn snapshot_ts_spec(name: Seq<char>) -> Option<i64> {
    if !has_prefix(name, "snapshot_"@) {
        None
    } else {
        match second_field(name, '_') {
            Some(f) => parse_i64_spec(f),
            None => None,
        }
    }
}

pub fn snapshot_ts(name: &str) -> (r: Option<i64>)
    ensures
        r == snapshot_ts_spec(name@),
{
    if !starts_with(name, "snapshot_") {
        return None;
    }
    match split_second(name, '_') {
        Some(f) => parse_i64(f.as_str()),
        None => None,
    }
}

/// The id that a pending batch file's name carries: what lies between
/// `pending_` and `.json`, as a number.
pub open spec fn pending_id_spec(name: Seq<char>) -> Option<u64> {
    if has_prefix(name, "pending_"@) {
        let rest = name.skip(8);
        if has_suffix(rest, ".json"@) {
            parse_u64_spec(rest.take(rest.len() - 5))
        } else {
            None
        }
    } else {
        None
    }
}

pub fn pending_id(name: &str) -> (r: Option<u64>)
    ensures
        r == pending_id_spec(name@),
{
    proof {
        reveal_strlit("pending_");
        reveal_strlit(".json");
    }
    if !starts_with(name, "pending_") {
        return None;
    }
    let cs = chars_of(name);
    let rest = chars_from(&cs, 8);
    let rest_s = string_of(rest.as_slice());
    if !ends_with(rest_s.as_str(), ".json") {
        return None;
    }
    let n = rest.len() - 5;
    let mut body: Vec<char> = Vec::new();
    let mut i: usize = 0;
    while i < n
        invariant
            0 <= i <= n,
            n <= rest@.len(),
            body@ == rest@.take(i as int),
        decreases n - i,
    {
        body.push(rest[i]);
        proof {
            assert(rest@.take(i + 1) =~= rest@.take(i as int).push(rest@[i as int]));
        }
        i = i + 1;
    }
    let b = string_of(body.as_slice());
    parse_u64(b.as_str())
}

// ── Names and hashes of files ────────────────────────────────────────────────

/// The hash of a batch: the hex SHA-256 of its JSON text.
pub open spec fn batch_hash_spec(json: Seq<char>) -> Seq<char> {
    hex_lower(btc_sha256_spec(utf8(json)))
}

pub fn batch_hash(json: &str) -> (r: String)
    ensures
        r@ == batch_hash_spec(json@),
{
    let h = btc_sha256(json.as_bytes());
    to_hex(h.as_slice())
}

/// `DIR/batch_ID_HASH12.json`, HASH12 being the hash's first twelve bytes.
pub open spec fn batch_file_name_spec(dir: Seq<char>, id: u64, hash: Seq<char>) -> Seq<char> {
    dir + "/batch_"@ + dec_string(id as nat) + "_"@ + head_spec(hash, 12) + ".json"@
}

pub fn batch_file_name(dir: &str, id: u64, hash: &str) -> (r: String)
    requires
        head_ok(hash@, 12),
    ensures
        r@ == batch_file_name_spec(dir@, id, hash@),
{
    let mut s = owned(dir);
    push_str(&mut s, "/batch_");
    let d = u64_to_string(id);
    push_str(&mut s, d.as_str());
    push_str(&mut s, "_");
    let h = head_bytes(hash, 12);
    push_str(&mut s, h.as_str());
    push_str(&mut s, ".json");
    s
}

/// `DIR/pending_ID.json`
pub open spec fn pending_file_name_spec(dir: Seq<char>, id: u64) -> Seq<char> {
    dir + "/pending_"@ + dec_string(id as nat) + ".json"@
}

pub fn pending_file_name(dir: &str, id: u64) -> (r: String)
    ensures
        r@ == pending_file_name_spec(dir@, id),
{
    let mut s = owned(dir);
    push_str(&mut s, "/pending_");
    let d = u64_to_string(id);
    push_str(&mut s, d.as_str());
    push_str(&mut s, ".json");
    s
}

/// `DIR/snapshot_TS_HASH12.json`
pub open spec fn snapshot_file_name_spec(dir: Seq<char>, ts: i64, hash: Seq<char>) -> Seq<char> {
    dir + "/snapshot_"@ + dec_string_i(ts as int) + "_"@ + head_spec(hash, 12) + ".json"@
}

pub fn snapshot_file_name(dir: &str, ts: i64, hash: &str) -> (r: String)
    requires
        head_ok(hash@, 12),
    ensures
        r@ == snapshot_file_name_spec(dir@, ts, hash@),
{
    let mut s = owned(dir);
    push_str(&mut s, "/snapshot_");
    let d = i64_to_string(ts);
    push_str(&mut s, d.as_str());
    push_str(&mut s, "_");
    let h = head_bytes(hash, 12);
    push_str(&mut s, h.as_str());
    push_str(&mut s, ".json");
    s
}

// ── Choosing files ────────────────────────────────────────────────────────────

/// Batches in ascending order of id (equal ids in the order read).
pub open spec fn by_id() -> spec_fn(DaBatch, DaBatch) -> bool {
    |a: DaBatch, b: DaBatch| a.id <= b.id
}

/// Sorts batches by id, oldest first; batches with equal ids keep the
/// order in which they were read.
pub fn sort_batches(batches: Vec<DaBatch>) -> (r: Vec<DaBatch>)
    ensures
        r@ == insertion_sort(batches@, by_id()),
{
    let ghost s = batches@;
    let ghost le = by_id();
    let mut rest = batches;
    let n = rest.len();
    let mut out: Vec<DaBatch> = Vec::new();
    let mut i: usize = 0;
    while rest.len() > 0
        invariant
            le == by_id(),
            n == s.len(),
            0 <= i <= s.len(),
            rest@ == s.skip(i as int),
            out@ == insertion_sort(s.take(i as int), le),
        decreases rest@.len(),
    {
        let b = rest.remove(0);
        proof {
            assert(b == s[i as int]);
            assert(s.take(i + 1).drop_last() =~= s.take(i as int));
            assert(s.take(i + 1).last() == b);
            assert(rest@ =~= s.skip(i + 1));
        }
        let ghost t = out@;
        let mut j: usize = 0;
        while j < out.len() && out[j].id <= b.id
            invariant
                0 <= j <= out@.len(),
                t == out@,
                le == by_id(),
                forall|m: int| 0 <= m < j ==> le(#[trigger] t[m], b),
            decreases out@.len() - j,
        {
            j = j + 1;
        }
        proof {
            lemma_first_not_at(t, b, le, j as int);
        }
        out.insert(j, b);
        i = i + 1;
    }
    proof {
        assert(s.take(i as int) =~= s);
    }
    out
}

/// Position of the first entry whose time is the greatest: the snapshot
/// that a newest-first stable sort puts first.
pub open spec fn newest_first_pos(ts: Seq<i64>, p: int) -> bool {
    &&& 0 <= p < ts.len()
    &&& forall|k: int| 0 <= k < ts.len() ==> #[trigger] ts[k] <= ts[p]
    &&& forall|k: int| 0 <= k < p ==> #[trigger] ts[k] < ts[p]
}

/// The entry of the newest snapshot; `None` where there is none.
pub fn newest_snapshot(ts: &Vec<i64>) -> (r: Option<usize>)
    ensures
        match r {
            Some(p) => newest_first_pos(ts@, p as int),
            None => ts@.len() == 0,
        },
{
    if ts.len() == 0 {
        return None;
    }
    let mut best: usize = 0;
    let mut i: usize = 1;
    while i < ts.len()
        invariant
            1 <= i <= ts@.len(),
            best < i,
            forall|k: int| 0 <= k < i ==> #[trigger] ts@[k] <= ts@[best as int],
            forall|k: int| 0 <= k < best ==> #[trigger] ts@[k] < ts@[best as int],
        decreases ts@.len() - i,
    {
        if ts[i] > ts[best] {
            best = i;
        }
        i = i + 1;
    }
    Some(best)
}

/// Position of the last entry whose id is the greatest: the pending batch
/// that an ascending stable sort puts last.
pub open spec fn highest_last_pos(ids: Seq<u64>, p: int) -> bool {
    &&& 0 <= p < ids.len()
    &&& forall|k: int| 0 <= k < ids.len() ==> #[trigger] ids[k] <= ids[p]
    &&& forall|k: int| p < k < ids.len() ==> #[trigger] ids[k] < ids[p]
}

/// The entry of the pending batch with the highest id; `None` where there
/// is none.
pub fn highest_pending(ids: &Vec<u64>) -> (r: Option<usize>)
    ensures
        match r {
            Some(p) => highest_last_pos(ids@, p as int),
            None => ids@.len() == 0,
        },
{
    if ids.len() == 0 {
        return None;
    }
    let mut best: usize = 0;
    let mut i: usize = 1;
    while i < ids.len()
        invariant
            1 <= i <= ids@.len(),
            best < i,
            forall|k: int| 0 <= k < i ==> #[trigger] ids@[k] <= ids@[best as int],
            forall|k: int| best < k < i ==> #[trigger] ids@[k] < ids@[best as int],
        decreases ids@.len() - i,
    {
        if ids[i] >= ids[best] {
            best = i;
        }
        i = i + 1;
    }
    Some(best)
}

} // verus!
