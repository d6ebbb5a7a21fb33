//! LSAT is moved, not made: the total of all balances under transfers.

use vstd::prelude::*;
use crate::strmap::{assoc_insert, assoc_get, key_pos, lemma_key_pos};
use crate::recovery::{LedgerView, bal, transfer_spec, pay_owner, replay_spec, buy_spec, lsat_spent_spec};
use crate::state::{AppState, TxRecord, balance_of};
use crate::payment::to_balance_after;

verus! {

/// The sum of all balances in a balance table.
pub open spec fn total_lsat(s: Seq<(Seq<char>, u64)>) -> int
    decreases s.len(),
{
    if s.len() == 0 {
        0
    } else {
        total_lsat(s.drop_last()) + s.last().1
    }
}

proof fn lemma_total_update(s: Seq<(Seq<char>, u64)>, i: int, e: (Seq<char>, u64))
    requires
        0 <= i < s.len(),
    ensures
        total_lsat(s.update(i, e)) == total_lsat(s) - s[i].1 + e.1,
    decreases s.len(),
{
    if i < s.len() - 1 {
        lemma_total_update(s.drop_last(), i, e);
        assert(s.update(i, e).drop_last() =~= s.drop_last().update(i, e));
    } else {
        assert(s.update(i, e).drop_last() =~= s.drop_last());
    }
}

/// Setting the balance of `k` to `v` changes the total by the difference.
pub proof fn lemma_total_insert(s: Seq<(Seq<char>, u64)>, k: Seq<char>, v: u64)
    ensures
        total_lsat(assoc_insert(s, k, v)) == total_lsat(s) - bal(s, k) + v,
{
    lemma_key_pos(s, k);
    let p = key_pos(s, k);
    if p >= 0 {
        lemma_total_update(s, p, (k, v));
    } else {
        assert(assoc_insert(s, k, v).drop_last() =~= s);
    }
}

/// A replayed transfer never changes the total LSAT: what leaves the sender
/// reaches the receiver.
pub proof fn law_transfer_conserves_lsat(l: LedgerView, tx: TxRecord)
    ensures
        transfer_spec(l, tx) matches Ok(l2) ==> total_lsat(l2.balances) == total_lsat(l.balances),
{
    let from = tx.from@;
    let to = tx.to@;
    let a = tx.amount;
    let fb = bal(l.balances, from);
    if a > 0 && fb >= a {
        let b1 = assoc_insert(l.balances, from, (fb - a) as u64);
        lemma_total_insert(l.balances, from, (fb - a) as u64);
        let tb = bal(b1, to);
        if tb + a <= u64::MAX {
            lemma_total_insert(b1, to, (tb + a) as u64);
        }
    }
}

/// A legacy transfer that goes through never changes the total LSAT.
pub proof fn law_legacy_transfer_conserves_lsat(st: &AppState, from: Seq<char>, to: Seq<char>, amount: u64)
    requires
        balance_of(st, from) >= amount,
        to_balance_after(st, from, to, amount) + amount <= u64::MAX,
    ensures
        total_lsat(
            assoc_insert(
                assoc_insert(st.balances@, from, (balance_of(st, from) - amount) as u64),
                to,
                (to_balance_after(st, from, to, amount) + amount) as u64,
            ),
        ) == total_lsat(st.balances@),
{
    let b0 = st.balances@;
    let fb = balance_of(st, from);
    let b1 = assoc_insert(b0, from, (fb - amount) as u64);
    assert(bal(b0, from) == fb);
    lemma_total_insert(b0, from, (fb - amount) as u64);
    crate::strmap::law_get_insert_same(b0, from, (fb - amount) as u64);
    if from != to {
        crate::strmap::law_get_insert_other(b0, from, (fb - amount) as u64, to);
    }
    assert(bal(b1, to) == to_balance_after(st, from, to, amount));
    lemma_total_insert(b1, to, (to_balance_after(st, from, to, amount) + amount) as u64);
}

/// Buying app tokens moves the LSAT spent from a buyer who holds it to the
/// app's owner: the total is unchanged.
pub proof fn law_token_purchase_moves_lsat(
    b: Seq<(Seq<char>, u64)>,
    buyer: Seq<char>,
    owner: Seq<char>,
    spent: u64,
)
    requires
        bal(b, buyer) >= spent,
        bal(assoc_insert(b, buyer, (bal(b, buyer) - spent) as u64), owner) + spent <= u64::MAX,
    ensures
        total_lsat(pay_owner(b, buyer, owner, spent)) == total_lsat(b),
{
    let b1 = assoc_insert(b, buyer, (bal(b, buyer) - spent) as u64);
    lemma_total_insert(b, buyer, (bal(b, buyer) - spent) as u64);
    lemma_total_insert(b1, owner, (bal(b1, owner) + spent) as u64);
}

/// Only deposits create LSAT: replaying any transaction other than a faucet
/// credit or a peg-in leaves the total of all balances as it was.
pub proof fn law_replay_conserves_lsat(l: LedgerView, tx: TxRecord)
    requires
        tx.tx_type@ != "Faucet"@,
        tx.tx_type@ != "PegIn"@,
    ensures
        replay_spec(l, tx) matches Ok(l2) ==> total_lsat(l2.balances) == total_lsat(l.balances),
{
    let t = tx.tx_type@;
    if t == "Transfer"@ {
        law_transfer_conserves_lsat(l, tx);
    } else if t == "AppTokenBuy"@ {
        if let Ok(l2) = buy_spec(l, tx) {
            if l2.balances != l.balances {
                let memo = match tx.memo {
                    Some(m) => Some(m@),
                    None => None,
                };
                let owner = assoc_get(l.apps, tx.to@)->0.owner;
                law_token_purchase_moves_lsat(l.balances, tx.from@, owner, lsat_spent_spec(memo));
            }
        }
    }
}

/// A deposit adds: replaying a faucet credit or a peg-in of `a > 0` LSAT to
/// a non-empty address that is accepted raises that address's balance by
/// exactly `a`, leaves every other balance as it was, and so grows the
/// total LSAT by exactly `a`.
pub proof fn law_deposit_credit_adds(l: LedgerView, tx: TxRecord, other: Seq<char>)
    requires
        tx.tx_type@ == "Faucet"@ || tx.tx_type@ == "PegIn"@,
        tx.amount > 0,
        tx.to@.len() > 0,
        replay_spec(l, tx) is Ok,
    ensures
        ({
            let l2 = replay_spec(l, tx)->Ok_0;
            &&& bal(l2.balances, tx.to@) == bal(l.balances, tx.to@) + tx.amount
            &&& (other != tx.to@ ==> bal(l2.balances, other) == bal(l.balances, other))
            &&& total_lsat(l2.balances) == total_lsat(l.balances) + tx.amount
        }),
{
    reveal_strlit("Transfer");
    reveal_strlit("Faucet");
    reveal_strlit("PegIn");
    assert(tx.tx_type@ != "Transfer"@) by {
        if tx.tx_type@ == "Faucet"@ {
            assert("Faucet"@[0] != "Transfer"@[0]);
        } else {
            assert("PegIn"@[0] != "Transfer"@[0]);
        }
    }
    assert(replay_spec(l, tx) == crate::recovery::credit_spec(l, tx));
    let to = tx.to@;
    let b = bal(l.balances, to);
    assert(b + tx.amount <= u64::MAX);
    let nb = (b + tx.amount) as u64;
    assert(replay_spec(l, tx)->Ok_0.balances == assoc_insert(l.balances, to, nb));
    crate::strmap::law_get_insert_same(l.balances, to, nb);
    if other != to {
        crate::strmap::law_get_insert_other(l.balances, to, nb, other);
    }
    lemma_total_insert(l.balances, to, nb);
}

} // verus!
