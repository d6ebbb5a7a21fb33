//! The node's state: merchants, invoices and payments, and the LSAT ledger.

use vstd::prelude::*;
use crate::strmap::{StrMap, assoc_get, assoc_insert, key_pos};
use crate::sorting::{insertion_sort, insert_sorted, lemma_first_not_at, lemma_first_not_props,
    lemma_insertion_sort_step};
use crate::crypto::{hash_key, key_hash_spec};

verus! {

/// Amounts of LSAT; one LSAT is one satoshi.
pub type Lsat = u64;

/// Length of the challenge window of a withdrawal, in seconds (24 hours).
pub const CHALLENGE_WINDOW_SEC: i64 = 86400;

/// A point in time: seconds since the Unix epoch and the nanoseconds within
/// that second.
#[derive(Clone, Copy, Debug, PartialEq, Eq, Structural)]
pub struct Timestamp {
    pub secs: i64,
    pub nanos: u32,
}

/// `a` is not later than `b`.
pub open spec fn ts_le(a: Timestamp, b: Timestamp) -> bool {
    a.secs < b.secs || (a.secs == b.secs && a.nanos <= b.nanos)
}

/// `a` is not later than `b`.
pub fn timestamp_le(a: Timestamp, b: Timestamp) -> (r: bool)
    ensures
        r == ts_le(a, b),
{
    a.secs < b.secs || (a.secs == b.secs && a.nanos <= b.nanos)
}

// ── Merchant ──────────────────────────────────────────────────────────────────

#[derive(Clone, Debug)]
pub struct Merchant {
    pub id: String,
    pub name: String,
    pub email: String,
    /// SHA-256 of the raw API key — the raw key is never stored.
    pub api_key_hash: String,
    /// "lm_live_ab12cd34..." — shown in the dashboard for identification.
    pub api_key_hint: String,
    pub balance_sats: Lsat,
    pub created_at: Timestamp,
    /// URL to POST payment events to.
    pub webhook_url: Option<String>,
    /// HMAC-SHA256 secret for signing webhook payloads.
    pub webhook_secret: Option<String>,
    pub total_received_sats: Lsat,
    pub total_withdrawn_sats: Lsat,
}

// ── Invoice ───────────────────────────────────────────────────────────────────

#[derive(Clone, Copy, Debug, PartialEq, Eq, Structural)]
pub enum InvoiceStatus {
    Pending,
    Paid,
    Expired,
}

/// The lower-case name of a status, as invoices are listed.
pub open spec fn status_text_spec(s: InvoiceStatus) -> Seq<char> {
    match s {
        InvoiceStatus::Pending => "pending"@,
        InvoiceStatus::Paid => "paid"@,
        InvoiceStatus::Expired => "expired"@,
    }
}

pub fn status_text(s: InvoiceStatus) -> (r: String)
    ensures
        r@ == status_text_spec(s),
{
    match s {
        InvoiceStatus::Pending => crate::text::owned("pending"),
        InvoiceStatus::Paid => crate::text::owned("paid"),
        InvoiceStatus::Expired => crate::text::owned("expired"),
    }
}

#[derive(Clone, Debug)]
pub struct Invoice {
    pub id: String,
    pub merchant_id: String,
    pub amount_sats: Lsat,
    pub description: String,
    pub bolt11: String,
    /// Lightning payment hash — the key that incoming payments are matched by.
    pub payment_hash: String,
    pub status: InvoiceStatus,
    pub created_at: Timestamp,
    pub expires_at: Timestamp,
    pub paid_at: Option<Timestamp>,
    /// Caller-supplied JSON, kept as its text.
    pub metadata: Option<String>,
}

// ── Payment record ────────────────────────────────────────────────────────────

#[derive(Clone, Debug)]
pub struct PaymentRecord {
    pub id: String,
    pub merchant_id: String,
    pub invoice_id: String,
    pub amount_sats: Lsat,
    pub payment_hash: String,
    pub created_at: Timestamp,
}

// ── Ledger records ───────────────────────────────────────────────────────────

/// One entry of the transaction history, as it is written to the DA layer.
#[derive(Clone, Debug)]
pub struct TxRecord {
    pub txid: String,
    pub tx_type: String,
    pub from: String,
    pub to: String,
    pub amount: u64,
    pub token: String,
    pub memo: Option<String>,
    pub status: String,
    pub timestamp: i64,
    pub btc_txid: Option<String>,
}

/// A registered app and its token.
#[derive(Clone, Debug)]
pub struct AppInfo {
    pub app_id: String,
    pub app_name: String,
    pub owner: String,
    pub description: String,
    pub website: Option<String>,
    pub token_name: String,
    pub rate_per_lsat: u64,
    pub created_at: i64,
    pub lsat_collected: u64,
}

#[derive(Clone, Copy, Debug, PartialEq, Eq, Structural)]
pub enum WithdrawalStatus {
    Pending,
    Processing,
    Completed,
    Failed,
}

/// A peg-out waiting out its challenge window.
#[derive(Clone, Debug)]
pub struct WithdrawalRequest {
    pub id: String,
    pub user: String,
    pub btc_address: String,
    pub amount: u64,
    pub status: WithdrawalStatus,
    pub created_at: i64,
    pub challenge_deadline: i64,
    pub retry_count: u32,
}

/// Network counters.
#[derive(Clone, Copy, Debug, PartialEq, Eq, Structural)]
pub struct NetworkStats {
    pub total_transfers: u64,
    pub total_volume_lsat: u64,
    pub total_pegins: u64,
    pub total_pegouts: u64,
    pub total_apps: u64,
}

/// A deposit credited from Bitcoin L1.
#[derive(Clone, Debug)]
pub struct TxLog {
    pub txid: String,
    pub amount_sats: u64,
    pub to: String,
}

// ── App state ─────────────────────────────────────────────────────────────────

pub struct AppState {
    pub balances: StrMap<Lsat>,
    pub pending_invoices: StrMap<String>,
    pub total_transactions: u64,
    /// merchant_id → Merchant
    pub merchants: StrMap<Merchant>,
    /// api_key_hash → merchant_id (lookup index)
    pub key_index: StrMap<String>,
    /// payment_hash → Invoice
    pub invoices: StrMap<Invoice>,
    /// payment_id → PaymentRecord
    pub payments: StrMap<PaymentRecord>,
    pub total_volume_sats: Lsat,
    /// Replayed and executed ledger transactions, oldest first.
    pub history: Vec<TxRecord>,
    pub stats: NetworkStats,
    /// app_id → AppInfo
    pub apps: StrMap<AppInfo>,
    /// "app_id:token:holder" → token balance
    pub app_token_balances: StrMap<u64>,
    /// withdrawal id → request
    pub withdrawals: StrMap<WithdrawalRequest>,
    /// Bitcoin transaction ids already credited.
    pub processed_txs: StrMap<()>,
    pub latest_state_root: String,
    /// Deposits credited from Bitcoin L1.
    pub deposits: Vec<TxLog>,
}

/// Invoices of one merchant, in the order in which they were stored.
pub open spec fn invoices_of(s: Seq<(Seq<char>, Invoice)>, mid: Seq<char>) -> Seq<Invoice>
    decreases s.len(),
{
    if s.len() == 0 {
        Seq::empty()
    } else {
        let r = invoices_of(s.drop_last(), mid);
        if s.last().1.merchant_id@ == mid {
            r.push(s.last().1)
        } else {
            r
        }
    }
}

/// Payment records of one merchant, in the order in which they were stored.
pub open spec fn payments_of(s: Seq<(Seq<char>, PaymentRecord)>, mid: Seq<char>) -> Seq<
    PaymentRecord,
>
    decreases s.len(),
{
    if s.len() == 0 {
        Seq::empty()
    } else {
        let r = payments_of(s.drop_last(), mid);
        if s.last().1.merchant_id@ == mid {
            r.push(s.last().1)
        } else {
            r
        }
    }
}

/// Newest first: `a` may come before `b` when it is not older.
pub open spec fn invoice_newer_first(a: Invoice, b: Invoice) -> bool {
    ts_le(b.created_at, a.created_at)
}

pub open spec fn payment_newer_first(a: PaymentRecord, b: PaymentRecord) -> bool {
    ts_le(b.created_at, a.created_at)
}

/// The newest-first order on invoices, as a relation.
pub open spec fn invoice_order() -> spec_fn(Invoice, Invoice) -> bool {
    |a: Invoice, b: Invoice| invoice_newer_first(a, b)
}

/// The newest-first order on payment records, as a relation.
pub open spec fn payment_order() -> spec_fn(PaymentRecord, PaymentRecord) -> bool {
    |a: PaymentRecord, b: PaymentRecord| payment_newer_first(a, b)
}

/// At most the first `n` elements of `s`.
pub open spec fn cap<A>(s: Seq<A>, n: int) -> Seq<A> {
    if s.len() <= n {
        s
    } else {
        s.take(n)
    }
}

/// What `invoices_for` lists: the merchant's invoices, newest first (ties in
/// storage order), at most 100.
pub open spec fn invoices_for_spec(s: Seq<(Seq<char>, Invoice)>, mid: Seq<char>) -> Seq<Invoice> {
    cap(insertion_sort(invoices_of(s, mid), invoice_order()), 100)
}

/// What `payments_for` lists: the merchant's payments, newest first (ties in
/// storage order), at most 100.
pub open spec fn payments_for_spec(s: Seq<(Seq<char>, PaymentRecord)>, mid: Seq<char>) -> Seq<
    PaymentRecord,
> {
    cap(insertion_sort(payments_of(s, mid), payment_order()), 100)
}

/// The merchant that a raw API key belongs to, through the key index.
pub open spec fn merchant_by_key_spec(st: &AppState, raw: Seq<char>) -> Option<Merchant> {
    match assoc_get(st.key_index@, key_hash_spec(raw)) {
        Some(id) => assoc_get(st.merchants@, id@),
        None => None,
    }
}

/// The LSAT balance of an address (0 for unknown addresses).
pub open spec fn balance_of(st: &AppState, addr: Seq<char>) -> u64 {
    match assoc_get(st.balances@, addr) {
        Some(b) => b,
        None => 0,
    }
}

impl AppState {
    /// An empty state.
    pub fn new() -> (r: Self)
        ensures
            r.balances@.len() == 0,
            r.pending_invoices@.len() == 0,
            r.total_transactions == 0,
            r.merchants@.len() == 0,
            r.key_index@.len() == 0,
            r.invoices@.len() == 0,
            r.payments@.len() == 0,
            r.total_volume_sats == 0,
            r.history@.len() == 0,
            r.stats == (NetworkStats {
                total_transfers: 0,
                total_volume_lsat: 0,
                total_pegins: 0,
                total_pegouts: 0,
                total_apps: 0,
            }),
            r.apps@.len() == 0,
            r.app_token_balances@.len() == 0,
            r.withdrawals@.len() == 0,
            r.processed_txs@.len() == 0,
            r.latest_state_root@.len() == 0,
            r.deposits@.len() == 0,
    {
        AppState {
            balances: StrMap::new(),
            pending_invoices: StrMap::new(),
            total_transactions: 0,
            merchants: StrMap::new(),
            key_index: StrMap::new(),
            invoices: StrMap::new(),
            payments: StrMap::new(),
            total_volume_sats: 0,
            history: Vec::new(),
            stats: NetworkStats {
                total_transfers: 0,
                total_volume_lsat: 0,
                total_pegins: 0,
                total_pegouts: 0,
                total_apps: 0,
            },
            apps: StrMap::new(),
            app_token_balances: StrMap::new(),
            withdrawals: StrMap::new(),
            processed_txs: StrMap::new(),
            latest_state_root: String::new(),
            deposits: Vec::new(),
        }
    }

    // ── Merchant lookups ──────────────────────────────────────────────────────

    /// The merchant whose key hashes to an entry of the key index.
    pub fn merchant_by_key(&self, raw_key: &str) -> (r: Option<&Merchant>)
        ensures
            match r {
                Some(m) => merchant_by_key_spec(self, raw_key@) == Some(*m),
                None => merchant_by_key_spec(self, raw_key@) is None,
            },
    {
        let hash = hash_key(raw_key);
        match self.key_index.get(hash.as_str()) {
            Some(id) => self.merchants.get(id.as_str()),
            None => None,
        }
    }

    /// Mutable access to the merchant that a raw key belongs to; the rest of
    /// the state stays as it was.
    pub fn merchant_by_key_mut(&mut self, raw_key: &str) -> (r: Option<&mut Merchant>)
        ensures
            match r {
                Some(m) => {
                    &&& merchant_by_key_spec(old(self), raw_key@) == Some(*m)
                    &&& assoc_get(old(self).key_index@, key_hash_spec(raw_key@)) matches Some(id)
                    &&& final(self).merchants@ == assoc_insert(old(self).merchants@, id@, *final(m))
                    &&& final(self).key_index@ == old(self).key_index@
                },
                None => {
                    &&& merchant_by_key_spec(old(self), raw_key@) is None
                    &&& final(self).merchants@ == old(self).merchants@
                    &&& final(self).key_index@ == old(self).key_index@
                },
            },
    {
        let hash = hash_key(raw_key);
        let id = match self.key_index.get(hash.as_str()) {
            Some(id) => id.clone(),
            None => {
                return None;
            },
        };
        match self.merchants.find(id.as_str()) {
            Some(i) => {
                proof {
                    crate::strmap::lemma_key_pos(self.merchants@, id@);
                }
                let m = self.merchants.value_mut_at(i);
                Some(m)
            },
            None => None,
        }
    }

    // ── Invoice and payment queries ───────────────────────────────────────────

    /// A merchant's invoices, newest first, at most 100.
    pub fn invoices_for(&self, merchant_id: &str) -> (r: Vec<&Invoice>)
        ensures
            r@.map_values(|x: &Invoice| *x) == invoices_for_spec(self.invoices@, merchant_id@),
    {
        let ghost le = invoice_order();
        let ghost s = self.invoices@;
        let mut out: Vec<&Invoice> = Vec::new();
        let n = self.invoices.len();
        let mut i: usize = 0;
        while i < n
            invariant
                0 <= i <= n,
                n == s.len(),
                s == self.invoices@,
                le == invoice_order(),
                out@.map_values(|x: &Invoice| *x) == insertion_sort(
                    invoices_of(s.take(i as int), merchant_id@),
                    le,
                ),
            decreases n - i,
        {
            let inv = self.invoices.value_at(i);
            proof {
                assert(s.take(i + 1).drop_last() =~= s.take(i as int));
            }
            if crate::text::str_eq(inv.merchant_id.as_str(), merchant_id) {
                let ghost t = out@.map_values(|x: &Invoice| *x);
                let mut j: usize = 0;
                while j < out.len() && timestamp_le(inv.created_at, out[j].created_at)
                    invariant
                        0 <= j <= out@.len(),
                        t == out@.map_values(|x: &Invoice| *x),
                        le == invoice_order(),
                        forall|k: int| 0 <= k < j ==> le(#[trigger] t[k], *inv),
                    decreases out@.len() - j,
                {
                    j = j + 1;
                }
                proof {
                    lemma_first_not_at(t, *inv, le, j as int);
                    let f = invoices_of(s.take(i as int), merchant_id@);
                    assert(invoices_of(s.take(i + 1), merchant_id@) == f.push(*inv));
                    assert(f.push(*inv).drop_last() =~= f);
                }
                out.insert(j, inv);
                proof {
                    assert(out@.map_values(|x: &Invoice| *x) =~= t.insert(j as int, *inv));
                }
            } else {
                proof {
                    assert(invoices_of(s.take(i + 1), merchant_id@) == invoices_of(
                        s.take(i as int),
                        merchant_id@,
                    ));
                }
            }
            i = i + 1;
        }
        proof {
            assert(s.take(n as int) =~= s);
        }
        let ghost full = out@.map_values(|x: &Invoice| *x);
        if out.len() > 100 {
            out.truncate(100);
            proof {
                assert(out@.map_values(|x: &Invoice| *x) =~= full.take(100));
            }
        }
        out
    }

    /// A merchant's payment records, newest first, at most 100.
    pub fn payments_for(&self, merchant_id: &str) -> (r: Vec<&PaymentRecord>)
        ensures
            r@.map_values(|x: &PaymentRecord| *x) == payments_for_spec(self.payments@, merchant_id@),
    {
        let ghost le = payment_order();
        let ghost s = self.payments@;
        let mut out: Vec<&PaymentRecord> = Vec::new();
        let n = self.payments.len();
        let mut i: usize = 0;
        while i < n
            invariant
                0 <= i <= n,
                n == s.len(),
                s == self.payments@,
                le == payment_order(),
                out@.map_values(|x: &PaymentRecord| *x) == insertion_sort(
                    payments_of(s.take(i as int), merchant_id@),
                    le,
                ),
            decreases n - i,
        {
            let p = self.payments.value_at(i);
            proof {
                assert(s.take(i + 1).drop_last() =~= s.take(i as int));
            }
            if crate::text::str_eq(p.merchant_id.as_str(), merchant_id) {
                let ghost t = out@.map_values(|x: &PaymentRecord| *x);
                let mut j: usize = 0;
                while j < out.len() && timestamp_le(p.created_at, out[j].created_at)
                    invariant
                        0 <= j <= out@.len(),
                        t == out@.map_values(|x: &PaymentRecord| *x),
                        le == payment_order(),
                        forall|k: int| 0 <= k < j ==> le(#[trigger] t[k], *p),
                    decreases out@.len() - j,
                {
                    j = j + 1;
                }
                proof {
                    lemma_first_not_at(t, *p, le, j as int);
                    let f = payments_of(s.take(i as int), merchant_id@);
                    assert(payments_of(s.take(i + 1), merchant_id@) == f.push(*p));
                    assert(f.push(*p).drop_last() =~= f);
                }
                out.insert(j, p);
                proof {
                    assert(out@.map_values(|x: &PaymentRecord| *x) =~= t.insert(j as int, *p));
                }
            } else {
                proof {
                    assert(payments_of(s.take(i + 1), merchant_id@) == payments_of(
                        s.take(i as int),
                        merchant_id@,
                    ));
                }
            }
            i = i + 1;
        }
        proof {
            assert(s.take(n as int) =~= s);
        }
        let ghost full = out@.map_values(|x: &PaymentRecord| *x);
        if out.len() > 100 {
            out.truncate(100);
            proof {
                assert(out@.map_values(|x: &PaymentRecord| *x) =~= full.take(100));
            }
        }
        out
    }

    // ── Ledger balances ───────────────────────────────────────────────────────

    /// LSAT balance of an address; 0 where it has none.
    pub fn get_balance(&self, addr: &str) -> (r: u64)
        ensures
            r == balance_of(self, addr@),
    {
        match self.balances.get(addr) {
            Some(b) => *b,
            None => 0,
        }
    }

    /// Sets the LSAT balance of an address.
    pub fn set_balance(&mut self, addr: &str, v: u64)
        ensures
            final(self).balances@ == assoc_insert(old(self).balances@, addr@, v),
            final(self).pending_invoices@ == old(self).pending_invoices@,
            final(self).total_transactions == old(self).total_transactions,
            final(self).merchants@ == old(self).merchants@,
            final(self).key_index@ == old(self).key_index@,
            final(self).invoices@ == old(self).invoices@,
            final(self).payments@ == old(self).payments@,
            final(self).total_volume_sats == old(self).total_volume_sats,
            final(self).history@ == old(self).history@,
            final(self).stats == old(self).stats,
            final(self).apps@ == old(self).apps@,
            final(self).app_token_balances@ == old(self).app_token_balances@,
            final(self).withdrawals@ == old(self).withdrawals@,
            final(self).processed_txs@ == old(self).processed_txs@,
            final(self).latest_state_root@ == old(self).latest_state_root@,
            final(self).deposits@ == old(self).deposits@,
    {
        self.balances.insert(crate::text::owned(addr), v);
    }
}

} // verus!

verus! {

// ── What a merchant's listings hold ──────────────────────────────────────────

/// The stored payment records, without their keys.
pub open spec fn payment_records(s: Seq<(Seq<char>, PaymentRecord)>) -> Seq<PaymentRecord> {
    s.map_values(|e: (Seq<char>, PaymentRecord)| e.1)
}

/// The stored invoices, without their keys.
pub open spec fn invoice_records(s: Seq<(Seq<char>, Invoice)>) -> Seq<Invoice> {
    s.map_values(|e: (Seq<char>, Invoice)| e.1)
}

/// The record belongs to the merchant.
pub open spec fn paid_to(mid: Seq<char>) -> spec_fn(PaymentRecord) -> bool {
    |p: PaymentRecord| p.merchant_id@ == mid
}

/// The invoice belongs to the merchant.
pub open spec fn issued_by(mid: Seq<char>) -> spec_fn(Invoice) -> bool {
    |v: Invoice| v.merchant_id@ == mid
}

proof fn lemma_payments_of_filter(s: Seq<(Seq<char>, PaymentRecord)>, mid: Seq<char>)
    ensures
        payments_of(s, mid) == payment_records(s).filter(paid_to(mid)),
    decreases s.len(),
{
    reveal(Seq::filter);
    if s.len() > 0 {
        lemma_payments_of_filter(s.drop_last(), mid);
        assert(payment_records(s).drop_last() =~= payment_records(s.drop_last()));
    } else {
        assert(payment_records(s) =~= Seq::<PaymentRecord>::empty());
    }
}

proof fn lemma_invoices_of_filter(s: Seq<(Seq<char>, Invoice)>, mid: Seq<char>)
    ensures
        invoices_of(s, mid) == invoice_records(s).filter(issued_by(mid)),
    decreases s.len(),
{
    reveal(Seq::filter);
    if s.len() > 0 {
        lemma_invoices_of_filter(s.drop_last(), mid);
        assert(invoice_records(s).drop_last() =~= invoice_records(s.drop_last()));
    } else {
        assert(invoice_records(s) =~= Seq::<Invoice>::empty());
    }
}

/// A merchant's payment listing holds only that merchant's records, as many
/// as it has up to 100, and every one of them when it has at most 100.
pub proof fn law_payments_for_merchant(s: Seq<(Seq<char>, PaymentRecord)>, mid: Seq<char>)
    ensures
        ({
            let r = payments_for_spec(s, mid);
            let mine = payment_records(s).filter(paid_to(mid));
            &&& forall|i: int| 0 <= i < r.len() ==> (#[trigger] r[i]).merchant_id@ == mid
            &&& r.len() == if mine.len() <= 100 { mine.len() } else { 100 }
            &&& mine.len() <= 100 ==> forall|i: int|
                0 <= i < s.len() && s[i].1.merchant_id@ == mid ==> r.contains(#[trigger] s[i].1)
        }),
{
    broadcast use vstd::seq_lib::group_to_multiset_ensures;

    lemma_payments_of_filter(s, mid);
    let m = payment_records(s);
    let mine = m.filter(paid_to(mid));
    let sorted = insertion_sort(mine, payment_order());
    crate::sorting::law_insertion_sort_permutes(mine, payment_order());
    m.filter_lemma(paid_to(mid));
    let r = payments_for_spec(s, mid);
    assert forall|i: int| 0 <= i < r.len() implies (#[trigger] r[i]).merchant_id@ == mid by {
        assert(r[i] == sorted[i]);
        assert(sorted.contains(sorted[i]));
        assert(sorted.to_multiset().count(sorted[i]) > 0);
        assert(mine.to_multiset().count(sorted[i]) > 0);
        assert(mine.contains(sorted[i]));
        let k = choose|k: int| 0 <= k < mine.len() && mine[k] == sorted[i];
        assert(paid_to(mid)(mine[k]));
    }
    if mine.len() <= 100 {
        assert forall|i: int| 0 <= i < s.len() && s[i].1.merchant_id@ == mid implies r.contains(
            #[trigger] s[i].1,
        ) by {
            assert(m[i] == s[i].1);
            assert(m.contains(s[i].1));
            m.lemma_filter_contains_rev(paid_to(mid), s[i].1);
            assert(sorted.to_multiset().count(s[i].1) > 0);
        }
    }
}

/// A merchant's invoice listing holds only that merchant's invoices, as
/// many as it has up to 100, and every one of them when it has at most
/// 100.
pub proof fn law_invoices_for_merchant(s: Seq<(Seq<char>, Invoice)>, mid: Seq<char>)
    ensures
        ({
            let r = invoices_for_spec(s, mid);
            let mine = invoice_records(s).filter(issued_by(mid));
            &&& forall|i: int| 0 <= i < r.len() ==> (#[trigger] r[i]).merchant_id@ == mid
            &&& r.len() == if mine.len() <= 100 { mine.len() } else { 100 }
            &&& mine.len() <= 100 ==> forall|i: int|
                0 <= i < s.len() && s[i].1.merchant_id@ == mid ==> r.contains(#[trigger] s[i].1)
        }),
{
    broadcast use vstd::seq_lib::group_to_multiset_ensures;

    lemma_invoices_of_filter(s, mid);
    let m = invoice_records(s);
    let mine = m.filter(issued_by(mid));
    let sorted = insertion_sort(mine, invoice_order());
    crate::sorting::law_insertion_sort_permutes(mine, invoice_order());
    m.filter_lemma(issued_by(mid));
    let r = invoices_for_spec(s, mid);
    assert forall|i: int| 0 <= i < r.len() implies (#[trigger] r[i]).merchant_id@ == mid by {
        assert(r[i] == sorted[i]);
        assert(sorted.contains(sorted[i]));
        assert(sorted.to_multiset().count(sorted[i]) > 0);
        assert(mine.to_multiset().count(sorted[i]) > 0);
        assert(mine.contains(sorted[i]));
        let k = choose|k: int| 0 <= k < mine.len() && mine[k] == sorted[i];
        assert(issued_by(mid)(mine[k]));
    }
    if mine.len() <= 100 {
        assert forall|i: int| 0 <= i < s.len() && s[i].1.merchant_id@ == mid implies r.contains(
            #[trigger] s[i].1,
        ) by {
            assert(m[i] == s[i].1);
            assert(m.contains(s[i].1));
            m.lemma_filter_contains_rev(issued_by(mid), s[i].1);
            assert(sorted.to_multiset().count(s[i].1) > 0);
        }
    }
}

} // verus!
