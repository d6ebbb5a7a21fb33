//! The Bitcoin bridge's decisions: which wallet transactions are deposits to
//! credit, to whom, and what crediting one does to the ledger.
//!
//! Fetching the wallet's transactions, block headers and Merkle proofs is
//! the node's I/O; the decisions below are taken on what it fetched.

use vstd::prelude::*;
use crate::state::{AppState, TxLog, balance_of};
use crate::strmap::{assoc_has, assoc_insert};
use crate::text::{owned, starts_with, has_prefix};

verus! {

/// What the bridge reads of one wallet transaction.
pub struct WalletTx {
    pub txid: String,
    /// The wallet received it (category `receive`).
    pub is_receive: bool,
    /// Its amount is above zero.
    pub amount_positive: bool,
    pub confirmations: i32,
    /// It is in a block.
    pub has_blockhash: bool,
    /// The wallet label, naming the L2 address to credit.
    pub label: Option<String>,
}

/// The L2 address that unlabelled deposits are credited to.
pub open spec fn default_deposit_address() -> Seq<char> {
    "0x107cb97206f84fa3"@
}

/// The transaction is a confirmed receipt that has not been credited yet
/// and sits in a block, so its Merkle proof is fetched and checked.
pub open spec fn deposit_candidate(st: &AppState, tx: &WalletTx) -> bool {
    &&& tx.is_receive
    &&& tx.amount_positive
    &&& tx.confirmations != 0
    &&& !assoc_has(st.processed_txs@, tx.txid@)
    &&& tx.has_blockhash
}

/// Whether a wallet transaction is a deposit to prove and credit.
pub fn is_deposit_candidate(st: &AppState, tx: &WalletTx) -> (r: bool)
    ensures
        r == deposit_candidate(st, tx),
{
    tx.is_receive && tx.amount_positive && tx.confirmations != 0 && !st.processed_txs.contains_key(
        tx.txid.as_str(),
    ) && tx.has_blockhash
}

/// The L2 address a deposit is credited to: its label where that starts
/// with `0x`, else the default address.
pub open spec fn deposit_address_spec(label: Option<Seq<char>>) -> Seq<char> {
    match label {
        Some(l) => if has_prefix(l, "0x"@) {
            l
        } else {
            default_deposit_address()
        },
        None => default_deposit_address(),
    }
}

pub fn deposit_address(label: &Option<String>) -> (r: String)
    ensures
        r@ == deposit_address_spec(
            match label {
                Some(l) => Some(l@),
                None => None,
            },
        ),
{
    proof {
        reveal_strlit("0x");
    }
    match label {
        Some(l) => if starts_with(l.as_str(), "0x") {
            l.clone()
        } else {
            owned("0x107cb97206f84fa3")
        },
        None => owned("0x107cb97206f84fa3"),
    }
}

/// The label of a wallet transaction, by its view.
pub open spec fn label_view(tx: &WalletTx) -> Option<Seq<char>> {
    match tx.label {
        Some(l) => Some(l@),
        None => None,
    }
}

/// Credits a proven deposit of `sats` satoshis: the target address's
/// balance grows, the transaction is marked credited, and the deposit is
/// logged. Gives back the credited address.
pub fn credit_deposit(st: &mut AppState, tx: &WalletTx, sats: u64) -> (r: String)
    requires
        balance_of(old(st), deposit_address_spec(label_view(tx))) + sats <= u64::MAX,
    ensures
        r@ == deposit_address_spec(label_view(tx)),
        final(st).balances@ == assoc_insert(
            old(st).balances@,
            r@,
            (balance_of(old(st), r@) + sats) as u64,
        ),
        final(st).processed_txs@ == assoc_insert(old(st).processed_txs@, tx.txid@, ()),
        final(st).deposits@.len() == old(st).deposits@.len() + 1,
        final(st).deposits@.drop_last() == old(st).deposits@,
        final(st).deposits@.last().txid@ == tx.txid@,
        final(st).deposits@.last().amount_sats == sats,
        final(st).deposits@.last().to@ == r@,
        final(st).merchants@ == old(st).merchants@,
        final(st).invoices@ == old(st).invoices@,
        final(st).total_transactions == old(st).total_transactions,
{
    let target = deposit_address(&tx.label);
    let cur = st.get_balance(target.as_str());
    st.set_balance(target.as_str(), cur + sats);
    st.processed_txs.insert(tx.txid.clone(), ());
    st.deposits.push(TxLog { txid: tx.txid.clone(), amount_sats: sats, to: target.clone() });
    proof {
        assert(st.deposits@.drop_last() =~= old(st).deposits@);
    }
    target
}

/// A credited deposit is never credited again: once credited, the same
/// transaction is no candidate.
pub proof fn law_deposit_credited_once(st: &AppState, tx: &WalletTx, post: &AppState)
    requires
        post.processed_txs@ == assoc_insert(st.processed_txs@, tx.txid@, ()),
    ensures
        !deposit_candidate(post, tx),
{
    crate::strmap::law_get_insert_same(st.processed_txs@, tx.txid@, ());
}

// ── A whole sync pass ─────────────────────────────────────────────────────────

/// What a wallet transaction must be to be credited, whatever was credited
/// before: a confirmed receipt of a positive amount in a block, whose Merkle
/// proof checked (`proven`).
pub open spec fn creditable(tx: WalletTx, proven: bool) -> bool {
    proven && tx.is_receive && tx.amount_positive && tx.confirmations != 0 && tx.has_blockhash
}

/// The ids that one pass of the bridge over the wallet's transactions
/// credits, in order, when `p` holds the ids credited before: each
/// creditable transaction whose id is not credited yet, by then.
pub open spec fn pass_credits(p: Seq<(Seq<char>, ())>, items: Seq<(WalletTx, bool)>) -> Seq<Seq<char>>
    decreases items.len(),
{
    if items.len() == 0 {
        Seq::empty()
    } else {
        let (tx, proven) = items[0];
        if creditable(tx, proven) && !assoc_has(p, tx.txid@) {
            seq![tx.txid@] + pass_credits(assoc_insert(p, tx.txid@, ()), items.drop_first())
        } else {
            pass_credits(p, items.drop_first())
        }
    }
}

/// The credited ids after one pass.
pub open spec fn pass_processed(p: Seq<(Seq<char>, ())>, items: Seq<(WalletTx, bool)>) -> Seq<
    (Seq<char>, ()),
>
    decreases items.len(),
{
    if items.len() == 0 {
        p
    } else {
        let (tx, proven) = items[0];
        if creditable(tx, proven) && !assoc_has(p, tx.txid@) {
            pass_processed(assoc_insert(p, tx.txid@, ()), items.drop_first())
        } else {
            pass_processed(p, items.drop_first())
        }
    }
}

proof fn lemma_has_insert(p: Seq<(Seq<char>, ())>, k: Seq<char>, k2: Seq<char>)
    ensures
        assoc_has(assoc_insert(p, k, ()), k2) <==> (k2 == k || assoc_has(p, k2)),
{
    if k2 == k {
        crate::strmap::law_get_insert_same(p, k, ());
    } else {
        crate::strmap::law_get_insert_other(p, k, (), k2);
    }
}

/// A pass keeps every id credited before and adds the id of every
/// creditable transaction.
proof fn lemma_pass_processed(p: Seq<(Seq<char>, ())>, items: Seq<(WalletTx, bool)>)
    ensures
        forall|k: Seq<char>| assoc_has(p, k) ==> #[trigger] assoc_has(pass_processed(p, items), k),
        forall|j: int|
            0 <= j < items.len() && creditable(items[j].0, items[j].1) ==> assoc_has(
                pass_processed(p, items),
                (#[trigger] items[j]).0.txid@,
            ),
    decreases items.len(),
{
    if items.len() > 0 {
        let (tx, proven) = items[0];
        let rest = items.drop_first();
        let q = if creditable(tx, proven) && !assoc_has(p, tx.txid@) {
            assoc_insert(p, tx.txid@, ())
        } else {
            p
        };
        lemma_pass_processed(q, rest);
        assert(pass_processed(p, items) == pass_processed(q, rest));
        assert forall|k: Seq<char>| assoc_has(p, k) implies #[trigger] assoc_has(q, k) by {
            lemma_has_insert(p, tx.txid@, k);
        }
        lemma_has_insert(p, tx.txid@, tx.txid@);
        assert forall|j: int|
            0 <= j < items.len() && creditable(items[j].0, items[j].1) implies assoc_has(
            pass_processed(p, items),
            (#[trigger] items[j]).0.txid@,
        ) by {
            if j > 0 {
                assert(items[j] == rest[j - 1]);
            } else {
                assert(assoc_has(q, tx.txid@));
            }
        }
    }
}

/// A pass credits nothing when every creditable transaction's id is
/// credited already.
proof fn lemma_pass_nothing_new(q: Seq<(Seq<char>, ())>, items: Seq<(WalletTx, bool)>)
    requires
        forall|j: int|
            0 <= j < items.len() && creditable(items[j].0, items[j].1) ==> assoc_has(
                q,
                (#[trigger] items[j]).0.txid@,
            ),
    ensures
        pass_credits(q, items).len() == 0,
    decreases items.len(),
{
    if items.len() > 0 {
        let rest = items.drop_first();
        assert forall|j: int|
            0 <= j < rest.len() && creditable(rest[j].0, rest[j].1) implies assoc_has(
            q,
            (#[trigger] rest[j]).0.txid@,
        ) by {
            assert(rest[j] == items[j + 1]);
        }
        lemma_pass_nothing_new(q, rest);
        assert(pass_credits(q, items) == pass_credits(q, rest));
    }
}

/// Syncing twice over the same wallet transactions credits nothing the
/// second time: every deposit the first pass could credit it did.
pub proof fn law_second_sync_credits_nothing(p: Seq<(Seq<char>, ())>, items: Seq<(WalletTx, bool)>)
    ensures
        pass_credits(pass_processed(p, items), items).len() == 0,
{
    lemma_pass_processed(p, items);
    lemma_pass_nothing_new(pass_processed(p, items), items);
}

/// A pass credits each transaction id at most once, and never one credited
/// before it.
pub proof fn law_sync_credits_once(p: Seq<(Seq<char>, ())>, items: Seq<(WalletTx, bool)>)
    ensures
        forall|i: int| 0 <= i < pass_credits(p, items).len() ==> !assoc_has(p, #[trigger] pass_credits(p, items)[i]),
        forall|i: int, j: int|
            0 <= i < j < pass_credits(p, items).len() ==> #[trigger] pass_credits(p, items)[i]
                != #[trigger] pass_credits(p, items)[j],
    decreases items.len(),
{
    if items.len() > 0 {
        let (tx, proven) = items[0];
        let rest = items.drop_first();
        if creditable(tx, proven) && !assoc_has(p, tx.txid@) {
            let q = assoc_insert(p, tx.txid@, ());
            law_sync_credits_once(q, rest);
            let c = pass_credits(p, items);
            let cr = pass_credits(q, rest);
            assert(c == seq![tx.txid@] + cr);
            assert forall|i: int| 0 <= i < c.len() implies !assoc_has(p, #[trigger] c[i]) by {
                if i > 0 {
                    assert(c[i] == cr[i - 1]);
                    lemma_has_insert(p, tx.txid@, c[i]);
                }
            }
            assert forall|i: int, j: int| 0 <= i < j < c.len() implies #[trigger] c[i] != #[trigger] c[j] by {
                assert(c[j] == cr[j - 1]);
                lemma_has_insert(p, tx.txid@, c[j]);
                if i > 0 {
                    assert(c[i] == cr[i - 1]);
                }
            }
        } else {
            law_sync_credits_once(p, rest);
            assert(pass_credits(p, items) == pass_credits(p, rest));
        }
    }
}

} // verus!
