//! What a received Lightning payment does to the state, and the legacy
//! balance events of the sequencer.

use vstd::prelude::*;
use crate::state::{AppState, Merchant, Invoice, InvoiceStatus, PaymentRecord, Timestamp, balance_of};
use crate::strmap::{assoc_get, assoc_has, assoc_insert, assoc_remove, lemma_key_pos};
use crate::text::{owned, to_hex, hex_lower};

verus! {

/// Where and how to announce a credited payment: the merchant, its webhook
/// URL and secret, and the paid invoice.
pub struct WebhookTarget {
    pub merchant_id: String,
    pub url: String,
    pub secret: Option<String>,
    pub invoice_id: String,
}

/// `a + b`, or `u64::MAX` where that overflows.
pub open spec fn sat_add(a: u64, b: u64) -> u64 {
    if a + b > u64::MAX {
        u64::MAX
    } else {
        (a + b) as u64
    }
}

/// The invoice once paid at `now`.
pub open spec fn paid_invoice(inv: Invoice, now: Timestamp) -> Invoice {
    Invoice { status: InvoiceStatus::Paid, paid_at: Some(now), ..inv }
}

/// The merchant once credited with `sats`.
pub open spec fn credited(m: Merchant, sats: u64) -> Merchant {
    Merchant {
        balance_sats: sat_add(m.balance_sats, sats),
        total_received_sats: sat_add(m.total_received_sats, sats),
        ..m
    }
}

/// Crediting a merchant never lowers its balance or its total received,
/// and adds exactly the payment wherever that fits in a `u64`.
pub proof fn law_credit_adds_payment(m: Merchant, sats: u64)
    ensures
        credited(m, sats).balance_sats >= m.balance_sats,
        credited(m, sats).total_received_sats >= m.total_received_sats,
        m.balance_sats + sats <= u64::MAX ==> credited(m, sats).balance_sats == m.balance_sats + sats,
        m.total_received_sats + sats <= u64::MAX ==> credited(m, sats).total_received_sats
            == m.total_received_sats + sats,
        credited(m, sats).id == m.id,
        credited(m, sats).api_key_hash == m.api_key_hash,
{
}

/// The merchants once the one with id `mid` (if any) is credited.
pub open spec fn credit_merchants(ms: Seq<(Seq<char>, Merchant)>, mid: Seq<char>, sats: u64) -> Seq<
    (Seq<char>, Merchant),
> {
    match assoc_get(ms, mid) {
        Some(m) => assoc_insert(ms, mid, credited(m, sats)),
        None => ms,
    }
}

/// The record of a payment of `sats` for `inv`.
pub open spec fn record_ok(
    rec: PaymentRecord,
    id: Seq<char>,
    inv: Invoice,
    sats: u64,
    hash: Seq<char>,
    now: Timestamp,
) -> bool {
    &&& rec.id@ == id
    &&& rec.merchant_id == inv.merchant_id
    &&& rec.invoice_id == inv.id
    &&& rec.amount_sats == sats
    &&& rec.payment_hash@ == hash
    &&& rec.created_at == now
}

/// A payment can be applied without a counter overflowing: a payment that
/// matches an invoice or a legacy pending invoice counts one transaction,
/// and a legacy credit adds to an account balance.
pub open spec fn payment_applicable(st: &AppState, hash: Seq<char>, sats: u64) -> bool {
    &&& (assoc_has(st.invoices@, hash) || assoc_has(st.pending_invoices@, hash))
        ==> st.total_transactions < u64::MAX
    &&& !assoc_has(st.invoices@, hash) ==> match assoc_get(st.pending_invoices@, hash) {
        Some(acct) => balance_of(st, acct@) + sats <= u64::MAX,
        None => true,
    }
}

/// What applying a payment of `sats` for `hash` at `now`, recorded under
/// `payment_id`, does: `pre` is the state before, `post` after, `r` what is
/// given back.
pub open spec fn payment_outcome(
    pre: &AppState,
    post: &AppState,
    hash: Seq<char>,
    sats: u64,
    payment_id: Seq<char>,
    now: Timestamp,
    r: Option<WebhookTarget>,
) -> bool {
    &&& match assoc_get(pre.invoices@, hash) {
        Some(inv) => {
            let ms = credit_merchants(pre.merchants@, inv.merchant_id@, sats);
            &&& post.invoices@ == assoc_insert(
                pre.invoices@,
                hash,
                paid_invoice(inv, now),
            )
            &&& post.merchants@ == ms
            &&& exists|rec: PaymentRecord| {
                &&& record_ok(rec, payment_id, inv, sats, hash, now)
                &&& #[trigger] post.payments@ == assoc_insert(
                    pre.payments@,
                    payment_id,
                    rec,
                )
            }
            &&& post.total_transactions == pre.total_transactions + 1
            &&& post.total_volume_sats == sat_add(pre.total_volume_sats, sats)
            &&& post.balances@ == pre.balances@
            &&& post.pending_invoices@ == pre.pending_invoices@
            &&& match assoc_get(ms, inv.merchant_id@) {
                Some(m) => match m.webhook_url {
                    Some(url) => r matches Some(t) && t.merchant_id == inv.merchant_id
                        && t.url == url && t.secret == m.webhook_secret && t.invoice_id
                        == inv.id,
                    None => r is None,
                },
                None => r is None,
            }
        },
        None => {
            &&& r is None
            &&& post.invoices@ == pre.invoices@
            &&& post.merchants@ == pre.merchants@
            &&& post.payments@ == pre.payments@
            &&& post.total_volume_sats == pre.total_volume_sats
            &&& match assoc_get(pre.pending_invoices@, hash) {
                Some(acct) => {
                    &&& post.pending_invoices@ == assoc_remove(
                        pre.pending_invoices@,
                        hash,
                    )
                    &&& post.balances@ == assoc_insert(
                        pre.balances@,
                        acct@,
                        (balance_of(pre, acct@) + sats) as u64,
                    )
                    &&& post.total_transactions == pre.total_transactions + 1
                },
                None => {
                    &&& post.pending_invoices@ == pre.pending_invoices@
                    &&& post.balances@ == pre.balances@
                    &&& post.total_transactions == pre.total_transactions
                },
            }
        },
    }
    &&& post.key_index@ == pre.key_index@
    &&& ledger_kept(pre, post)
}

/// The ledger side of the state is as it was: history, network statistics,
/// apps and their token balances, withdrawals, processed Bitcoin
/// transactions, the state root and the deposits.
pub open spec fn ledger_kept(pre: &AppState, post: &AppState) -> bool {
    &&& post.history@ == pre.history@
    &&& post.stats == pre.stats
    &&& post.apps@ == pre.apps@
    &&& post.app_token_balances@ == pre.app_token_balances@
    &&& post.withdrawals@ == pre.withdrawals@
    &&& post.processed_txs@ == pre.processed_txs@
    &&& post.latest_state_root@ == pre.latest_state_root@
    &&& post.deposits@ == pre.deposits@
}

/// Applies a received payment of `sats` for the payment hash `hash` at
/// `now`, recording it under `payment_id`.
///
/// An invoice stored under the hash is marked paid, its merchant (if it
/// still exists) is credited with saturating arithmetic, the payment is
/// recorded, and the counters grow; the merchant's webhook, if it has one,
/// is given back. Otherwise a legacy pending invoice under the hash is
/// removed and its account credited. Otherwise nothing changes.
pub fn apply_payment(
    st: &mut AppState,
    hash: &str,
    sats: u64,
    payment_id: String,
    now: Timestamp,
) -> (r: Option<WebhookTarget>)
    requires
        payment_applicable(old(st), hash@, sats),
    ensures
        payment_outcome(old(st), final(st), hash@, sats, payment_id@, now, r),
{
    let pos = st.invoices.find(hash);
    match pos {
        None => {
            match st.pending_invoices.remove(hash) {
                Some(account) => {
                    let cur = st.get_balance(account.as_str());
                    st.set_balance(account.as_str(), cur + sats);
                    st.total_transactions = st.total_transactions + 1;
                },
                None => {},
            }
            None
        },
        Some(i) => {
            proof {
                lemma_key_pos(st.invoices@, hash@);
            }
            let ghost inv0 = st.invoices@[i as int].1;
            let merchant_id = st.invoices.value_at(i).merchant_id.clone();
            let invoice_id = st.invoices.value_at(i).id.clone();
            {
                let inv = st.invoices.value_mut_at(i);
                inv.status = InvoiceStatus::Paid;
                inv.paid_at = Some(now);
            }
            proof {
                lemma_key_pos(old(st).invoices@, hash@);
            }
            match st.merchants.find(merchant_id.as_str()) {
                Some(j) => {
                    proof {
                        lemma_key_pos(st.merchants@, merchant_id@);
                    }
                    let m = st.merchants.value_mut_at(j);
                    m.balance_sats = m.balance_sats.saturating_add(sats);
                    m.total_received_sats = m.total_received_sats.saturating_add(sats);
                },
                None => {},
            }
            let rec = PaymentRecord {
                id: payment_id.clone(),
                merchant_id: merchant_id.clone(),
                invoice_id: invoice_id.clone(),
                amount_sats: sats,
                payment_hash: owned(hash),
                created_at: now,
            };
            let ghost recv = rec;
            st.payments.insert(payment_id, rec);
            st.total_transactions = st.total_transactions + 1;
            st.total_volume_sats = st.total_volume_sats.saturating_add(sats);
            proof {
                assert(record_ok(recv, payment_id@, inv0, sats, hash@, now));
            }
            match st.merchants.get(merchant_id.as_str()) {
                Some(m) => match &m.webhook_url {
                    Some(url) => {
                        let secret = match &m.webhook_secret {
                            Some(s) => Some(s.clone()),
                            None => None,
                        };
                        Some(WebhookTarget {
                            merchant_id,
                            url: url.clone(),
                            secret,
                            invoice_id,
                        })
                    },
                    None => None,
                },
                None => None,
            }
        },
    }
}

/// Applies a received payment now, under a fresh random payment id.
pub fn handle_payment(st: &mut AppState, hash: &str, sats: u64) -> (r: Option<WebhookTarget>)
    requires
        payment_applicable(old(st), hash@, sats),
    ensures
        exists|id: Seq<char>, now: Timestamp|
            payment_outcome(old(st), final(st), hash@, sats, id, now, r),
{
    let id = crate::merchant::new_id();
    let t = crate::merchant::now();
    let r = apply_payment(st, hash, sats, id, t);
    r
}

// ── Legacy balance events ────────────────────────────────────────────────────

/// The balance of `to` once `amount` has left `from`.
pub open spec fn to_balance_after(st: &AppState, from: Seq<char>, to: Seq<char>, amount: u64) -> int {
    if from == to {
        balance_of(st, from) - amount
    } else {
        balance_of(st, to) as int
    }
}

/// A legacy transfer that goes through does not overflow a counter.
pub open spec fn transfer_applicable(st: &AppState, from: Seq<char>, to: Seq<char>, amount: u64) -> bool {
    balance_of(st, from) >= amount ==> {
        &&& st.total_transactions < u64::MAX
        &&& to_balance_after(st, from, to, amount) + amount <= u64::MAX
    }
}

/// Moves `amount` from `from` to `to` where `from` holds enough; tells
/// whether it did.
pub fn legacy_transfer(st: &mut AppState, from: &str, to: &str, amount: u64) -> (r: bool)
    requires
        transfer_applicable(old(st), from@, to@, amount),
    ensures
        r == (balance_of(old(st), from@) >= amount),
        r ==> {
            &&& final(st).balances@ == assoc_insert(
                assoc_insert(
                    old(st).balances@,
                    from@,
                    (balance_of(old(st), from@) - amount) as u64,
                ),
                to@,
                (to_balance_after(old(st), from@, to@, amount) + amount) as u64,
            )
            &&& final(st).total_transactions == old(st).total_transactions + 1
        },
        !r ==> final(st).balances@ == old(st).balances@ && final(st).total_transactions == old(
            st,
        ).total_transactions,
        final(st).merchants@ == old(st).merchants@,
        final(st).invoices@ == old(st).invoices@,
        final(st).pending_invoices@ == old(st).pending_invoices@,
{
    let from_bal = st.get_balance(from);
    if from_bal >= amount {
        st.set_balance(from, from_bal - amount);
        proof {
            crate::strmap::law_get_insert_same(old(st).balances@, from@, (from_bal - amount) as u64);
            if from@ != to@ {
                crate::strmap::law_get_insert_other(old(st).balances@, from@, (from_bal - amount) as u64, to@);
            }
        }
        let to_bal = st.get_balance(to);
        st.set_balance(to, to_bal + amount);
        st.total_transactions = st.total_transactions + 1;
        true
    } else {
        false
    }
}

/// Credits `amount` to `account`.
pub fn legacy_mint(st: &mut AppState, account: &str, amount: u64)
    requires
        balance_of(old(st), account@) + amount <= u64::MAX,
        old(st).total_transactions < u64::MAX,
    ensures
        final(st).balances@ == assoc_insert(
            old(st).balances@,
            account@,
            (balance_of(old(st), account@) + amount) as u64,
        ),
        final(st).total_transactions == old(st).total_transactions + 1,
        final(st).merchants@ == old(st).merchants@,
        final(st).invoices@ == old(st).invoices@,
{
    let cur = st.get_balance(account);
    st.set_balance(account, cur + amount);
    st.total_transactions = st.total_transactions + 1;
}

/// What a legacy pay request answers.
#[derive(Clone, Debug, PartialEq, Eq)]
pub enum PayStep {
    /// Ask the node to pay this many satoshis.
    Send(u64),
    /// Refuse with this reply.
    Refuse(String),
}

/// Decides a legacy pay request from the parsed invoice: `None` where the
/// invoice did not parse, else the amount it asks in millisatoshis (if any).
pub fn pay_decide(st: &AppState, account: &str, parsed: Option<Option<u64>>) -> (r: PayStep)
    ensures
        match parsed {
            None => r matches PayStep::Refuse(m) && m@ == "invalid_invoice"@,
            Some(msat) => {
                let sats = match msat {
                    Some(v) => v / 1000,
                    None => 0,
                };
                if balance_of(st, account@) >= sats {
                    r == PayStep::Send(sats)
                } else {
                    r matches PayStep::Refuse(m) && m@ == "insufficient_funds"@
                }
            },
        },
{
    match parsed {
        None => PayStep::Refuse(owned("invalid_invoice")),
        Some(msat) => {
            let sats = match msat {
                Some(v) => v / 1000,
                None => 0,
            };
            let bal = st.get_balance(account);
            if bal >= sats {
                PayStep::Send(sats)
            } else {
                PayStep::Refuse(owned("insufficient_funds"))
            }
        },
    }
}

/// Finishes a legacy payment of `sats` once the node answered: with the
/// payment hash the account is debited and the hash (hex) is the reply,
/// else the reply is `routing_failed`.
pub fn pay_finish(st: &mut AppState, account: &str, sats: u64, sent: Option<Vec<u8>>) -> (r: String)
    requires
        balance_of(old(st), account@) >= sats,
        old(st).total_transactions < u64::MAX,
    ensures
        match sent {
            Some(h) => {
                &&& r@ == hex_lower(h@)
                &&& final(st).balances@ == assoc_insert(
                    old(st).balances@,
                    account@,
                    (balance_of(old(st), account@) - sats) as u64,
                )
                &&& final(st).total_transactions == old(st).total_transactions + 1
            },
            None => {
                &&& r@ == "routing_failed"@
                &&& final(st).balances@ == old(st).balances@
                &&& final(st).total_transactions == old(st).total_transactions
            },
        },
        final(st).merchants@ == old(st).merchants@,
        final(st).invoices@ == old(st).invoices@,
{
    match sent {
        Some(h) => {
            let bal = st.get_balance(account);
            st.set_balance(account, bal - sats);
            st.total_transactions = st.total_transactions + 1;
            to_hex(h.as_slice())
        },
        None => owned("routing_failed"),
    }
}

} // verus!
