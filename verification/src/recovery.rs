//! Rebuilding the ledger from the transactions written to the DA layer.
//!
//! Replaying a transaction applies what it recorded to the ledger part of
//! the state: LSAT balances, network counters, apps and their tokens,
//! withdrawals in their challenge window, credited Bitcoin transactions and
//! the latest state root.

use vstd::prelude::*;
use crate::state::{AppState, AppInfo, WithdrawalRequest, WithdrawalStatus, NetworkStats, TxRecord,
    CHALLENGE_WINDOW_SEC};
use crate::strmap::{assoc_get, assoc_get_or, assoc_has, assoc_insert, map_vals, lemma_map_vals_get,
    lemma_map_vals_insert, law_get_insert_same, law_get_insert_other, key_pos, lemma_key_pos};
use crate::da_adapter::DaBatch;
use crate::text::{owned, push_str, str_eq, words, split_whitespace, second_field, split_second,
    parse_u64, parse_u64_spec, has_prefix, starts_with, strip_prefixes, strip_suffixes,
    trim_start_matches, trim_end_matches};

verus! {

// ── Memo parsers ──────────────────────────────────────────────────────────────

/// Token name and rate from an app registration memo
/// "App 'NAME' registered | 1 LSAT = 10 GOLD": the fourth and fifth words
/// after the first `|`; `TOKEN` and 1 where they are missing or the rate is
/// no number.
pub open spec fn app_memo_spec(memo: Option<Seq<char>>) -> (Seq<char>, u64) {
    match memo {
        None => ("TOKEN"@, 1),
        Some(m) => match second_field(m, '|') {
            None => ("TOKEN"@, 1),
            Some(f) => {
                let w = words(f);
                let rate = if w.len() > 3 {
                    match parse_u64_spec(w[3]) {
                        Some(r) => r,
                        None => 1,
                    }
                } else {
                    1
                };
                let token = if w.len() > 4 {
                    w[4]
                } else {
                    "TOKEN"@
                };
                (token, rate)
            },
        },
    }
}

/// LSAT spent, from a token purchase memo "Spent 100 LSAT → 1000 GOLD": the
/// second word when the first is `Spent`, else 0.
pub open spec fn lsat_spent_spec(memo: Option<Seq<char>>) -> u64 {
    match memo {
        None => 0,
        Some(m) => {
            let w = words(m);
            if w.len() > 0 && w[0] == "Spent"@ {
                if w.len() > 1 {
                    match parse_u64_spec(w[1]) {
                        Some(v) => v,
                        None => 0,
                    }
                } else {
                    0
                }
            } else {
                0
            }
        },
    }
}

/// The text of an optional string.
pub open spec fn opt_text(o: Option<&str>) -> Option<Seq<char>> {
    match o {
        Some(s) => Some(s@),
        None => None,
    }
}

/// Parses "App 'NAME' registered | 1 LSAT = 10 GOLD" into ("GOLD", 10).
pub fn parse_app_memo(memo: Option<&str>) -> (r: (String, u64))
    ensures
        (r.0@, r.1) == app_memo_spec(opt_text(memo)),
{
    proof {
        reveal_strlit("TOKEN");
    }
    let m = match memo {
        Some(m) => m,
        None => {
            return (owned("TOKEN"), 1);
        },
    };
    match split_second(m, '|') {
        Some(rate_part) => {
            let words_v = split_whitespace(rate_part.as_str());
            let ghost w = words(rate_part@);
            proof {
                assert(words_v@.len() == w.len());
            }
            let rate = if words_v.len() > 3 {
                proof {
                    assert(words_v@[3]@ == w[3]);
                }
                match parse_u64(words_v[3].as_str()) {
                    Some(r) => r,
                    None => 1,
                }
            } else {
                1
            };
            let token = if words_v.len() > 4 {
                proof {
                    assert(words_v@[4]@ == w[4]);
                }
                words_v[4].clone()
            } else {
                owned("TOKEN")
            };
            (token, rate)
        },
        None => (owned("TOKEN"), 1),
    }
}

/// Parses "Spent 100 LSAT → 1000 GOLD" into 100.
pub fn parse_lsat_spent(memo: Option<&str>) -> (r: u64)
    ensures
        r == lsat_spent_spec(opt_text(memo)),
{
    let m = match memo {
        Some(m) => m,
        None => {
            return 0;
        },
    };
    let words_v = split_whitespace(m);
    let ghost w = words(m@);
    proof {
        assert(words_v@.len() == w.len());
        reveal_strlit("Spent");
    }
    if words_v.len() > 0 {
        proof {
            assert(words_v@[0]@ == w[0]);
        }
        if str_eq(words_v[0].as_str(), "Spent") {
            if words_v.len() > 1 {
                proof {
                    assert(words_v@[1]@ == w[1]);
                }
                return match parse_u64(words_v[1].as_str()) {
                    Some(v) => v,
                    None => 0,
                };
            }
        }
    }
    0
}

// ── The ledger ────────────────────────────────────────────────────────────────

/// An app as the ledger sees it.
pub struct AppInfoView {
    pub app_id: Seq<char>,
    pub app_name: Seq<char>,
    pub owner: Seq<char>,
    pub description: Seq<char>,
    pub website: Option<Seq<char>>,
    pub token_name: Seq<char>,
    pub rate_per_lsat: u64,
    pub created_at: i64,
    pub lsat_collected: u64,
}

pub open spec fn app_view(a: AppInfo) -> AppInfoView {
    AppInfoView {
        app_id: a.app_id@,
        app_name: a.app_name@,
        owner: a.owner@,
        description: a.description@,
        website: match a.website {
            Some(w) => Some(w@),
            None => None,
        },
        token_name: a.token_name@,
        rate_per_lsat: a.rate_per_lsat,
        created_at: a.created_at,
        lsat_collected: a.lsat_collected,
    }
}

/// A withdrawal as the ledger sees it.
pub struct WithdrawalView {
    pub id: Seq<char>,
    pub user: Seq<char>,
    pub btc_address: Seq<char>,
    pub amount: u64,
    pub status: WithdrawalStatus,
    pub created_at: i64,
    pub challenge_deadline: i64,
    pub retry_count: u32,
}

pub open spec fn withdrawal_view(w: WithdrawalRequest) -> WithdrawalView {
    WithdrawalView {
        id: w.id@,
        user: w.user@,
        btc_address: w.btc_address@,
        amount: w.amount,
        status: w.status,
        created_at: w.created_at,
        challenge_deadline: w.challenge_deadline,
        retry_count: w.retry_count,
    }
}

pub open spec fn app_view_fn() -> spec_fn(AppInfo) -> AppInfoView {
    |a: AppInfo| app_view(a)
}

pub open spec fn withdrawal_view_fn() -> spec_fn(WithdrawalRequest) -> WithdrawalView {
    |w: WithdrawalRequest| withdrawal_view(w)
}

/// The ledger part of the state.
#[verifier::ext_equal]
pub struct LedgerView {
    pub balances: Seq<(Seq<char>, u64)>,
    pub stats: NetworkStats,
    pub apps: Seq<(Seq<char>, AppInfoView)>,
    pub tokens: Seq<(Seq<char>, u64)>,
    pub withdrawals: Seq<(Seq<char>, WithdrawalView)>,
    pub processed: Seq<(Seq<char>, ())>,
    pub root: Seq<char>,
}

pub open spec fn ledger(st: &AppState) -> LedgerView {
    LedgerView {
        balances: st.balances@,
        stats: st.stats,
        apps: map_vals(st.apps@, app_view_fn()),
        tokens: st.app_token_balances@,
        withdrawals: map_vals(st.withdrawals@, withdrawal_view_fn()),
        processed: st.processed_txs@,
        root: st.latest_state_root@,
    }
}

/// The parts of the state that replaying leaves alone.
pub open spec fn same_outside_ledger(a: &AppState, b: &AppState) -> bool {
    &&& a.pending_invoices@ == b.pending_invoices@
    &&& a.total_transactions == b.total_transactions
    &&& a.merchants@ == b.merchants@
    &&& a.key_index@ == b.key_index@
    &&& a.invoices@ == b.invoices@
    &&& a.payments@ == b.payments@
    &&& a.total_volume_sats == b.total_volume_sats
    &&& a.history@ == b.history@
    &&& a.deposits@ == b.deposits@
}

/// Balance held under `k` in a balance table; 0 when none.
pub open spec fn bal(m: Seq<(Seq<char>, u64)>, k: Seq<char>) -> u64 {
    assoc_get_or(m, k, 0u64)
}

pub open spec fn overflow_msg() -> Seq<char> {
    "arithmetic overflow"@
}

pub open spec fn unknown_type_msg(t: Seq<char>) -> Seq<char> {
    "Unknown tx type: "@ + t
}

/// Key of an app-token balance: "app:token:holder".
pub open spec fn token_key(app: Seq<char>, token: Seq<char>, holder: Seq<char>) -> Seq<char> {
    app + ":"@ + token + ":"@ + holder
}

/// The first app (in registration order) whose token has the given name.
pub open spec fn app_with_token(apps: Seq<(Seq<char>, AppInfoView)>, token: Seq<char>) -> Option<
    Seq<char>,
>
    decreases apps.len(),
{
    if apps.len() == 0 {
        None
    } else if apps[0].1.token_name == token {
        Some(apps[0].0)
    } else {
        app_with_token(apps.drop_first(), token)
    }
}

pub open spec fn transfer_spec(l: LedgerView, tx: TxRecord) -> Result<LedgerView, Seq<char>> {
    let from = tx.from@;
    let to = tx.to@;
    let a = tx.amount;
    if a > 0 && from.len() > 0 && to.len() > 0 && from != "System"@ && from != "Bitcoin L1"@ {
        let fb = bal(l.balances, from);
        if fb >= a {
            let b1 = assoc_insert(l.balances, from, (fb - a) as u64);
            let tb = bal(b1, to);
            if tb + a > u64::MAX || l.stats.total_transfers + 1 > u64::MAX
                || l.stats.total_volume_lsat + a > u64::MAX {
                Err(overflow_msg())
            } else {
                Ok(
                    LedgerView {
                        balances: assoc_insert(b1, to, (tb + a) as u64),
                        stats: NetworkStats {
                            total_transfers: (l.stats.total_transfers + 1) as u64,
                            total_volume_lsat: (l.stats.total_volume_lsat + a) as u64,
                            ..l.stats
                        },
                        ..l
                    },
                )
            }
        } else {
            Ok(l)
        }
    } else {
        Ok(l)
    }
}

pub open spec fn credit_spec(l: LedgerView, tx: TxRecord) -> Result<LedgerView, Seq<char>> {
    let to = tx.to@;
    let a = tx.amount;
    let pegin = tx.tx_type@ == "PegIn"@;
    if a > 0 && to.len() > 0 {
        let b = bal(l.balances, to);
        if b + a > u64::MAX || (pegin && l.stats.total_pegins + 1 > u64::MAX) {
            Err(overflow_msg())
        } else {
            Ok(
                LedgerView {
                    balances: assoc_insert(l.balances, to, (b + a) as u64),
                    stats: if pegin {
                        NetworkStats { total_pegins: (l.stats.total_pegins + 1) as u64, ..l.stats }
                    } else {
                        l.stats
                    },
                    processed: match tx.btc_txid {
                        Some(t) => assoc_insert(l.processed, t@, ()),
                        None => l.processed,
                    },
                    ..l
                },
            )
        }
    } else {
        Ok(l)
    }
}

pub open spec fn pegout_spec(l: LedgerView, tx: TxRecord) -> Result<LedgerView, Seq<char>> {
    if tx.status@ == "InChallenge"@ || tx.status@ == "Pending"@ {
        if !assoc_has(l.withdrawals, tx.txid@) {
            if tx.timestamp + CHALLENGE_WINDOW_SEC > i64::MAX || l.stats.total_pegouts + 1
                > u64::MAX {
                Err(overflow_msg())
            } else {
                Ok(
                    LedgerView {
                        withdrawals: assoc_insert(
                            l.withdrawals,
                            tx.txid@,
                            WithdrawalView {
                                id: tx.txid@,
                                user: tx.from@,
                                btc_address: tx.to@,
                                amount: tx.amount,
                                status: WithdrawalStatus::Pending,
                                created_at: tx.timestamp,
                                challenge_deadline: (tx.timestamp + CHALLENGE_WINDOW_SEC) as i64,
                                retry_count: 0,
                            },
                        ),
                        stats: NetworkStats {
                            total_pegouts: (l.stats.total_pegouts + 1) as u64,
                            ..l.stats
                        },
                        ..l
                    },
                )
            }
        } else {
            Ok(l)
        }
    } else {
        Ok(l)
    }
}

pub open spec fn register_spec(l: LedgerView, tx: TxRecord) -> Result<LedgerView, Seq<char>> {
    let to = tx.to@;
    if !assoc_has(l.apps, to) {
        let memo = match tx.memo {
            Some(m) => Some(m@),
            None => None,
        };
        let (token, rate) = app_memo_spec(memo);
        let apps2 = assoc_insert(
            l.apps,
            to,
            AppInfoView {
                app_id: to,
                app_name: to,
                owner: tx.from@,
                description: Seq::empty(),
                website: None,
                token_name: token,
                rate_per_lsat: rate,
                created_at: tx.timestamp,
                lsat_collected: 0,
            },
        );
        Ok(
            LedgerView {
                apps: apps2,
                stats: NetworkStats { total_apps: apps2.len() as u64, ..l.stats },
                ..l
            },
        )
    } else {
        Ok(l)
    }
}

/// Balances after a token purchase moves `spent` LSAT from the buyer, who
/// holds at least that much, to the app owner.
pub open spec fn pay_owner(b: Seq<(Seq<char>, u64)>, buyer: Seq<char>, owner: Seq<char>, spent: u64) -> Seq<
    (Seq<char>, u64),
> {
    let b1 = assoc_insert(b, buyer, (bal(b, buyer) - spent) as u64);
    assoc_insert(b1, owner, (bal(b1, owner) + spent) as u64)
}

pub open spec fn pay_owner_fits(b: Seq<(Seq<char>, u64)>, buyer: Seq<char>, owner: Seq<char>, spent: u64) -> bool {
    let b1 = assoc_insert(b, buyer, (bal(b, buyer) - spent) as u64);
    bal(b1, owner) + spent <= u64::MAX
}

pub open spec fn short_msg() -> Seq<char> {
    "insufficient LSAT balance"@
}

/// A token purchase: the buyer's tokens grow by the amount, and the LSAT the
/// memo names as spent goes from the buyer to the app owner. A buyer who
/// holds less than that is refused, so the purchase never creates LSAT.
pub open spec fn buy_spec(l: LedgerView, tx: TxRecord) -> Result<LedgerView, Seq<char>> {
    let to = tx.to@;
    let from = tx.from@;
    let a = tx.amount;
    if a > 0 && to.len() > 0 {
        let key = token_key(to, tx.token@, from);
        let cur = bal(l.tokens, key);
        let tokens2 = assoc_insert(l.tokens, key, (cur + a) as u64);
        let memo = match tx.memo {
            Some(m) => Some(m@),
            None => None,
        };
        let spent = lsat_spent_spec(memo);
        if cur + a > u64::MAX {
            Err(overflow_msg())
        } else if spent > 0 {
            let app = assoc_get(l.apps, to);
            let owner = match app {
                Some(x) => x.owner,
                None => Seq::empty(),
            };
            let pays = app is Some && owner != from && owner.len() > 0;
            if app is Some && app->0.lsat_collected + spent > u64::MAX {
                Err(overflow_msg())
            } else if pays && bal(l.balances, from) < spent {
                Err(short_msg())
            } else if (pays && !pay_owner_fits(l.balances, from, owner, spent))
                || l.stats.total_volume_lsat + spent > u64::MAX {
                Err(overflow_msg())
            } else {
                Ok(
                    LedgerView {
                        tokens: tokens2,
                        apps: match app {
                            Some(x) => assoc_insert(
                                l.apps,
                                to,
                                AppInfoView {
                                    lsat_collected: (x.lsat_collected + spent) as u64,
                                    ..x
                                },
                            ),
                            None => l.apps,
                        },
                        balances: if pays {
                            pay_owner(l.balances, from, owner, spent)
                        } else {
                            l.balances
                        },
                        stats: NetworkStats {
                            total_volume_lsat: (l.stats.total_volume_lsat + spent) as u64,
                            ..l.stats
                        },
                        ..l
                    },
                )
            }
        } else {
            Ok(LedgerView { tokens: tokens2, ..l })
        }
    } else {
        Ok(l)
    }
}

pub open spec fn token_transfer_spec(l: LedgerView, tx: TxRecord) -> Result<LedgerView, Seq<char>> {
    let a = tx.amount;
    if a > 0 && tx.to@.len() > 0 {
        match app_with_token(l.apps, tx.token@) {
            Some(app_id) => {
                let fk = token_key(app_id, tx.token@, tx.from@);
                let tk = token_key(app_id, tx.token@, tx.to@);
                let fb = bal(l.tokens, fk);
                if fb >= a {
                    let t1 = assoc_insert(l.tokens, fk, (fb - a) as u64);
                    let tb = bal(t1, tk);
                    if tb + a > u64::MAX {
                        Err(overflow_msg())
                    } else {
                        Ok(LedgerView { tokens: assoc_insert(t1, tk, (tb + a) as u64), ..l })
                    }
                } else {
                    Ok(l)
                }
            },
            None => Ok(l),
        }
    } else {
        Ok(l)
    }
}

pub open spec fn settlement_spec(l: LedgerView, tx: TxRecord) -> Result<LedgerView, Seq<char>> {
    match tx.memo {
        Some(m) => if has_prefix(m@, "Root: "@) {
            let rp = strip_suffixes(strip_prefixes(m@, "Root: "@), "..."@);
            if rp.len() > 0 {
                Ok(LedgerView { root: rp, ..l })
            } else {
                Ok(l)
            }
        } else {
            Ok(l)
        },
        None => Ok(l),
    }
}

/// What replaying one transaction does to the ledger, or why it is refused:
/// an unknown type, a token purchase the buyer cannot pay for, or a counter
/// or balance that would pass `u64::MAX`.
pub open spec fn replay_spec(l: LedgerView, tx: TxRecord) -> Result<LedgerView, Seq<char>> {
    let t = tx.tx_type@;
    if t == "Transfer"@ {
        transfer_spec(l, tx)
    } else if t == "Faucet"@ || t == "PegIn"@ {
        credit_spec(l, tx)
    } else if t == "PegOut"@ {
        pegout_spec(l, tx)
    } else if t == "AppRegister"@ {
        register_spec(l, tx)
    } else if t == "AppTokenBuy"@ {
        buy_spec(l, tx)
    } else if t == "AppTokenTransfer"@ {
        token_transfer_spec(l, tx)
    } else if t == "Settlement"@ {
        settlement_spec(l, tx)
    } else {
        Err(unknown_type_msg(t))
    }
}

/// `r` and the ledgers before and after agree with a replay outcome.
pub open spec fn replayed(
    before: LedgerView,
    after: LedgerView,
    r: Result<(), String>,
    s: Result<LedgerView, Seq<char>>,
) -> bool {
    match s {
        Ok(l) => r is Ok && after == l,
        Err(e) => match r {
            Ok(_) => false,
            Err(m) => m@ == e && after == before,
        },
    }
}

} // verus!

verus! {

// ── Replaying one transaction ────────────────────────────────────────────────

fn short_err() -> (r: Result<(), String>)
    ensures
        r matches Err(m) && m@ == short_msg(),
{
    proof {
        reveal_strlit("insufficient LSAT balance");
    }
    Err(owned("insufficient LSAT balance"))
}

fn overflow_err() -> (r: Result<(), String>)
    ensures
        r matches Err(m) && m@ == overflow_msg(),
{
    proof {
        reveal_strlit("arithmetic overflow");
    }
    Err(owned("arithmetic overflow"))
}

fn memo_text(tx: &TxRecord) -> (r: Option<&str>)
    ensures
        opt_text(r) == match tx.memo {
            Some(m) => Some(m@),
            None => None::<Seq<char>>,
        },
{
    match &tx.memo {
        Some(m) => Some(m.as_str()),
        None => None,
    }
}

fn replay_transfer(state: &mut AppState, tx: &TxRecord) -> (r: Result<(), String>)
    ensures
        replayed(ledger(old(state)), ledger(final(state)), r, transfer_spec(ledger(old(state)), *tx)),
        same_outside_ledger(old(state), final(state)),
{
    proof {
        reveal_strlit("System");
        reveal_strlit("Bitcoin L1");
    }
    let a = tx.amount;
    let from = tx.from.as_str();
    let to = tx.to.as_str();
    if a > 0 && !from.is_empty() && !to.is_empty() && !str_eq(from, "System") && !str_eq(
        from,
        "Bitcoin L1",
    ) {
        let fb = state.get_balance(from);
        if fb >= a {
            let ghost b0 = state.balances@;
            let ghost b1 = assoc_insert(b0, from@, (fb - a) as u64);
            let tb = if str_eq(to, from) {
                proof {
                    law_get_insert_same(b0, from@, (fb - a) as u64);
                }
                fb - a
            } else {
                proof {
                    law_get_insert_other(b0, from@, (fb - a) as u64, to@);
                }
                state.get_balance(to)
            };
            proof {
                assert(tb == bal(b1, to@));
            }
            if tb > u64::MAX - a || state.stats.total_transfers == u64::MAX
                || state.stats.total_volume_lsat > u64::MAX - a {
                return overflow_err();
            }
            state.set_balance(from, fb - a);
            state.set_balance(to, tb + a);
            state.stats.total_transfers = state.stats.total_transfers + 1;
            state.stats.total_volume_lsat = state.stats.total_volume_lsat + a;
            return Ok(());
        }
    }
    Ok(())
}

fn replay_credit(state: &mut AppState, tx: &TxRecord) -> (r: Result<(), String>)
    ensures
        replayed(ledger(old(state)), ledger(final(state)), r, credit_spec(ledger(old(state)), *tx)),
        same_outside_ledger(old(state), final(state)),
{
    proof {
        reveal_strlit("PegIn");
    }
    let a = tx.amount;
    let to = tx.to.as_str();
    let pegin = str_eq(tx.tx_type.as_str(), "PegIn");
    if a > 0 && !to.is_empty() {
        let b = state.get_balance(to);
        if b > u64::MAX - a || (pegin && state.stats.total_pegins == u64::MAX) {
            return overflow_err();
        }
        state.set_balance(to, b + a);
        if pegin {
            state.stats.total_pegins = state.stats.total_pegins + 1;
        }
        match &tx.btc_txid {
            Some(t) => {
                state.processed_txs.insert(t.clone(), ());
            },
            None => {},
        }
    }
    Ok(())
}

fn replay_pegout(state: &mut AppState, tx: &TxRecord) -> (r: Result<(), String>)
    ensures
        replayed(ledger(old(state)), ledger(final(state)), r, pegout_spec(ledger(old(state)), *tx)),
        same_outside_ledger(old(state), final(state)),
{
    proof {
        reveal_strlit("InChallenge");
        reveal_strlit("Pending");
        lemma_map_vals_get(state.withdrawals@, withdrawal_view_fn(), tx.txid@);
    }
    let st = tx.status.as_str();
    if str_eq(st, "InChallenge") || str_eq(st, "Pending") {
        if !state.withdrawals.contains_key(tx.txid.as_str()) {
            if tx.timestamp > i64::MAX - CHALLENGE_WINDOW_SEC || state.stats.total_pegouts
                == u64::MAX {
                return overflow_err();
            }
            let w = WithdrawalRequest {
                id: tx.txid.clone(),
                user: tx.from.clone(),
                btc_address: tx.to.clone(),
                amount: tx.amount,
                status: WithdrawalStatus::Pending,
                created_at: tx.timestamp,
                challenge_deadline: tx.timestamp + CHALLENGE_WINDOW_SEC,
                retry_count: 0,
            };
            proof {
                lemma_map_vals_insert(state.withdrawals@, withdrawal_view_fn(), tx.txid@, w);
            }
            state.withdrawals.insert(tx.txid.clone(), w);
            state.stats.total_pegouts = state.stats.total_pegouts + 1;
        }
    }
    Ok(())
}

fn replay_register(state: &mut AppState, tx: &TxRecord) -> (r: Result<(), String>)
    ensures
        replayed(ledger(old(state)), ledger(final(state)), r, register_spec(ledger(old(state)), *tx)),
        same_outside_ledger(old(state), final(state)),
{
    proof {
        lemma_map_vals_get(state.apps@, app_view_fn(), tx.to@);
    }
    if !state.apps.contains_key(tx.to.as_str()) {
        let (token_name, rate) = parse_app_memo(memo_text(tx));
        let info = AppInfo {
            app_id: tx.to.clone(),
            app_name: tx.to.clone(),
            owner: tx.from.clone(),
            description: String::new(),
            website: None,
            token_name,
            rate_per_lsat: rate,
            created_at: tx.timestamp,
            lsat_collected: 0,
        };
        proof {
            lemma_map_vals_insert(state.apps@, app_view_fn(), tx.to@, info);
        }
        state.apps.insert(tx.to.clone(), info);
        proof {
            assert(map_vals(state.apps@, app_view_fn()).len() == state.apps@.len());
        }
        state.stats.total_apps = state.apps.len() as u64;
    }
    Ok(())
}

/// "app:token:holder".
fn make_token_key(app: &str, token: &str, holder: &str) -> (r: String)
    ensures
        r@ == token_key(app@, token@, holder@),
{
    let mut k = owned(app);
    push_str(&mut k, ":");
    push_str(&mut k, token);
    push_str(&mut k, ":");
    push_str(&mut k, holder);
    proof {
        reveal_strlit(":");
    }
    k
}

fn token_balance(state: &AppState, key: &str) -> (r: u64)
    ensures
        r == bal(state.app_token_balances@, key@),
{
    match state.app_token_balances.get(key) {
        Some(b) => *b,
        None => 0,
    }
}

fn replay_buy(state: &mut AppState, tx: &TxRecord) -> (r: Result<(), String>)
    ensures
        replayed(ledger(old(state)), ledger(final(state)), r, buy_spec(ledger(old(state)), *tx)),
        same_outside_ledger(old(state), final(state)),
{
    let a = tx.amount;
    let to = tx.to.as_str();
    let from = tx.from.as_str();
    if !(a > 0 && !to.is_empty()) {
        return Ok(());
    }
    let key = make_token_key(to, tx.token.as_str(), from);
    let cur = token_balance(state, key.as_str());
    let spent = parse_lsat_spent(memo_text(tx));
    if cur > u64::MAX - a {
        return overflow_err();
    }
    if spent == 0 {
        state.app_token_balances.insert(key, cur + a);
        return Ok(());
    }
    proof {
        lemma_map_vals_get(state.apps@, app_view_fn(), to@);
    }
    let app_pos = state.apps.find(to);
    let (owner, collected): (String, u64) = match app_pos {
        Some(i) => {
            proof {
                lemma_key_pos(state.apps@, to@);
            }
            let app = state.apps.value_at(i);
            (app.owner.clone(), app.lsat_collected)
        },
        None => (String::new(), 0),
    };
    let pays = app_pos.is_some() && !str_eq(owner.as_str(), from) && !owner.as_str().is_empty();
    if app_pos.is_some() && collected > u64::MAX - spent {
        return overflow_err();
    }
    let ghost b0 = state.balances@;
    let fb = state.get_balance(from);
    if pays && fb < spent {
        return short_err();
    }
    let ghost b1 = assoc_insert(b0, from@, (fb - spent) as u64);
    let ob = if pays {
        proof {
            law_get_insert_other(b0, from@, (fb - spent) as u64, owner@);
        }
        state.get_balance(owner.as_str())
    } else {
        0
    };
    if (pays && ob > u64::MAX - spent) || state.stats.total_volume_lsat > u64::MAX - spent {
        return overflow_err();
    }
    state.app_token_balances.insert(key, cur + a);
    match app_pos {
        Some(i) => {
            let ghost old_apps = state.apps@;
            let m = state.apps.value_mut_at(i);
            let ghost old_info = *m;
            m.lsat_collected = collected + spent;
            proof {
                lemma_key_pos(old_apps, to@);
                assert(state.apps@ == assoc_insert(old_apps, to@, AppInfo {
                    lsat_collected: (collected + spent) as u64,
                    ..old_info
                }));
                lemma_map_vals_insert(old_apps, app_view_fn(), to@, AppInfo {
                    lsat_collected: (collected + spent) as u64,
                    ..old_info
                });
            }
        },
        None => {},
    }
    if pays {
        state.set_balance(from, fb - spent);
        state.set_balance(owner.as_str(), ob + spent);
    }
    state.stats.total_volume_lsat = state.stats.total_volume_lsat + spent;
    Ok(())
}

/// Position of the first app whose token has the given name.
fn find_app_by_token(state: &AppState, token: &str) -> (r: Option<usize>)
    ensures
        match r {
            Some(i) => i < state.apps@.len() && app_with_token(
                map_vals(state.apps@, app_view_fn()),
                token@,
            ) == Some(state.apps@[i as int].0),
            None => app_with_token(map_vals(state.apps@, app_view_fn()), token@) is None,
        },
{
    let ghost v = map_vals(state.apps@, app_view_fn());
    let n = state.apps.len();
    let mut i: usize = 0;
    proof {
        assert(v.skip(0) =~= v);
    }
    while i < n
        invariant
            0 <= i <= n,
            n == state.apps@.len(),
            v == map_vals(state.apps@, app_view_fn()),
            app_with_token(v, token@) == app_with_token(v.skip(i as int), token@),
        decreases n - i,
    {
        let app = state.apps.value_at(i);
        proof {
            assert(v.skip(i as int)[0] == v[i as int]);
            assert(v[i as int].1 == app_view(*app));
            assert(v.skip(i as int).drop_first() =~= v.skip(i + 1));
        }
        if str_eq(app.token_name.as_str(), token) {
            return Some(i);
        }
        i = i + 1;
    }
    None
}

fn replay_token_transfer(state: &mut AppState, tx: &TxRecord) -> (r: Result<(), String>)
    ensures
        replayed(
            ledger(old(state)),
            ledger(final(state)),
            r,
            token_transfer_spec(ledger(old(state)), *tx),
        ),
        same_outside_ledger(old(state), final(state)),
{
    let a = tx.amount;
    if !(a > 0 && !tx.to.as_str().is_empty()) {
        return Ok(());
    }
    let i = match find_app_by_token(state, tx.token.as_str()) {
        Some(i) => i,
        None => {
            return Ok(());
        },
    };
    let app_id = state.apps.key_at(i).clone();
    let fk = make_token_key(app_id.as_str(), tx.token.as_str(), tx.from.as_str());
    let tk = make_token_key(app_id.as_str(), tx.token.as_str(), tx.to.as_str());
    let fb = token_balance(state, fk.as_str());
    if fb < a {
        return Ok(());
    }
    let ghost t0 = state.app_token_balances@;
    let tb = if str_eq(tk.as_str(), fk.as_str()) {
        proof {
            law_get_insert_same(t0, fk@, (fb - a) as u64);
        }
        fb - a
    } else {
        proof {
            law_get_insert_other(t0, fk@, (fb - a) as u64, tk@);
        }
        token_balance(state, tk.as_str())
    };
    if tb > u64::MAX - a {
        return overflow_err();
    }
    state.app_token_balances.insert(fk, fb - a);
    state.app_token_balances.insert(tk, tb + a);
    Ok(())
}

fn replay_settlement(state: &mut AppState, tx: &TxRecord) -> (r: Result<(), String>)
    ensures
        replayed(
            ledger(old(state)),
            ledger(final(state)),
            r,
            settlement_spec(ledger(old(state)), *tx),
        ),
        same_outside_ledger(old(state), final(state)),
{
    proof {
        reveal_strlit("Root: ");
        reveal_strlit("...");
    }
    match &tx.memo {
        Some(m) => {
            if starts_with(m.as_str(), "Root: ") {
                let a = trim_start_matches(m.as_str(), "Root: ");
                let rp = trim_end_matches(a.as_str(), "...");
                if !rp.as_str().is_empty() {
                    state.latest_state_root = rp;
                }
            }
        },
        None => {},
    }
    Ok(())
}

/// Applies one recorded transaction to the ledger. Unknown types are
/// refused with "Unknown tx type: ..."; a balance or counter that would pass
/// `u64::MAX` refuses the transaction with "arithmetic overflow", the ledger
/// unchanged.
pub fn replay_tx(state: &mut AppState, tx: &TxRecord) -> (r: Result<(), String>)
    ensures
        replayed(ledger(old(state)), ledger(final(state)), r, replay_spec(ledger(old(state)), *tx)),
        same_outside_ledger(old(state), final(state)),
{
    proof {
        reveal_strlit("Transfer");
        reveal_strlit("Faucet");
        reveal_strlit("PegIn");
        reveal_strlit("PegOut");
        reveal_strlit("AppRegister");
        reveal_strlit("AppTokenBuy");
        reveal_strlit("AppTokenTransfer");
        reveal_strlit("Settlement");
        reveal_strlit("Unknown tx type: ");
    }
    let t = tx.tx_type.as_str();
    if str_eq(t, "Transfer") {
        replay_transfer(state, tx)
    } else if str_eq(t, "Faucet") || str_eq(t, "PegIn") {
        replay_credit(state, tx)
    } else if str_eq(t, "PegOut") {
        replay_pegout(state, tx)
    } else if str_eq(t, "AppRegister") {
        replay_register(state, tx)
    } else if str_eq(t, "AppTokenBuy") {
        replay_buy(state, tx)
    } else if str_eq(t, "AppTokenTransfer") {
        replay_token_transfer(state, tx)
    } else if str_eq(t, "Settlement") {
        replay_settlement(state, tx)
    } else {
        let mut msg = owned("Unknown tx type: ");
        push_str(&mut msg, t);
        Err(msg)
    }
}

} // verus!

verus! {

// ── Recovering a whole state ─────────────────────────────────────────────────

/// A copy of a recorded transaction.
pub fn copy_tx(tx: &TxRecord) -> (r: TxRecord)
    ensures
        r == *tx,
{
    TxRecord {
        txid: tx.txid.clone(),
        tx_type: tx.tx_type.clone(),
        from: tx.from.clone(),
        to: tx.to.clone(),
        amount: tx.amount,
        token: tx.token.clone(),
        memo: match &tx.memo {
            Some(m) => Some(m.clone()),
            None => None,
        },
        status: tx.status.clone(),
        timestamp: tx.timestamp,
        btc_txid: match &tx.btc_txid {
            Some(b) => Some(b.clone()),
            None => None,
        },
    }
}

/// The history already holds a transaction with this id.
pub open spec fn hist_has(h: Seq<TxRecord>, txid: Seq<char>) -> bool {
    exists|i: int| 0 <= i < h.len() && (#[trigger] h[i]).txid@ == txid
}

fn history_has(h: &Vec<TxRecord>, txid: &str) -> (r: bool)
    ensures
        r == hist_has(h@, txid@),
{
    let mut i: usize = 0;
    while i < h.len()
        invariant
            0 <= i <= h@.len(),
            forall|k: int| 0 <= k < i ==> (#[trigger] h@[k]).txid@ != txid@,
        decreases h@.len() - i,
    {
        if str_eq(h[i].txid.as_str(), txid) {
            return true;
        }
        i = i + 1;
    }
    false
}

/// Progress of a recovery: the ledger, the history, how many transactions
/// were replayed and the warnings so far.
pub struct RecState {
    pub l: LedgerView,
    pub hist: Seq<TxRecord>,
    pub count: nat,
    pub warnings: Seq<Seq<char>>,
}

/// "Batch #ID tx 'TXID' skipped: ERR", the id cut to its first 16 bytes
/// (whole when that cut would split a character).
pub open spec fn skip_warning(id: u64, txid: Seq<char>, e: Seq<char>) -> Seq<char> {
    "Batch #"@ + crate::text::dec_string(id as nat) + " tx '"@ + crate::crypto::cut_spec(txid, 16)
        + "' skipped: "@ + e
}

/// "Batch #ID root mismatch (expected X... got Y...)", roots cut to 12
/// bytes (whole when that cut would split a character).
pub open spec fn root_warning(id: u64, expected: Seq<char>, got: Seq<char>) -> Seq<char> {
    "Batch #"@ + crate::text::dec_string(id as nat) + " root mismatch (expected "@
        + crate::crypto::cut_spec(expected, 12) + "... got "@ + crate::crypto::cut_spec(got, 12)
        + "...)"@
}

/// "Final root mismatch vs L1 (got X... expected Y...)", roots cut to 12
/// bytes (whole when that cut would split a character).
pub open spec fn final_warning(got: Seq<char>, expected: Seq<char>) -> Seq<char> {
    "Final root mismatch vs L1 (got "@ + crate::crypto::cut_spec(got, 12) + "... expected "@
        + crate::crypto::cut_spec(expected, 12) + "...)"@
}

/// One transaction of a batch: skipped when the history holds its id,
/// else replayed and recorded; a refused one gives a warning when `warn`.
pub open spec fn tx_step(s: RecState, tx: TxRecord, id: u64, warn: bool) -> RecState {
    if hist_has(s.hist, tx.txid@) {
        s
    } else {
        match replay_spec(s.l, tx) {
            Ok(l2) => RecState { l: l2, hist: s.hist.push(tx), count: s.count + 1, ..s },
            Err(e) => if warn {
                RecState { warnings: s.warnings.push(skip_warning(id, tx.txid@, e)), ..s }
            } else {
                s
            },
        }
    }
}

/// Every recorded transaction is executed once: a transaction that a step
/// records in the history (or finds there) is skipped by any later step.
pub proof fn law_recorded_tx_skipped(s: RecState, tx: TxRecord, id: u64, warn: bool, id2: u64, warn2: bool)
    requires
        tx_step(s, tx, id, warn).hist.len() > s.hist.len() || hist_has(s.hist, tx.txid@),
    ensures
        tx_step(tx_step(s, tx, id, warn), tx, id2, warn2) == tx_step(s, tx, id, warn),
{
    let s1 = tx_step(s, tx, id, warn);
    if !hist_has(s.hist, tx.txid@) {
        assert(s1.hist == s.hist.push(tx));
        assert(s1.hist[s1.hist.len() - 1] == tx);
    }
    assert(hist_has(s1.hist, tx.txid@));
}

pub open spec fn txs_run(s: RecState, txs: Seq<TxRecord>, id: u64, warn: bool) -> RecState
    decreases txs.len(),
{
    if txs.len() == 0 {
        s
    } else {
        tx_step(txs_run(s, txs.drop_last(), id, warn), txs.last(), id, warn)
    }
}

/// A batch: its transactions, then a check of its state root where it has
/// one.
pub open spec fn batch_run(s: RecState, b: DaBatch) -> RecState {
    let s1 = txs_run(s, b.transactions@, b.id, true);
    let computed = crate::settlement::merkle_root_spec(s1.l.balances);
    if b.state_root@.len() > 0 && computed != b.state_root@ {
        RecState { warnings: s1.warnings.push(root_warning(b.id, b.state_root@, computed)), ..s1 }
    } else {
        s1
    }
}

pub open spec fn batches_run(s: RecState, bs: Seq<DaBatch>) -> RecState
    decreases bs.len(),
{
    if bs.len() == 0 {
        s
    } else {
        batch_run(batches_run(s, bs.drop_last()), bs.last())
    }
}

/// One past the first batch at which the running count of transactions,
/// starting from `acc`, reaches `t`; 0 when it never does.
pub open spec fn start_from(lens: Seq<nat>, t: nat, acc: nat) -> int
    decreases lens.len(),
{
    if lens.len() == 0 {
        0
    } else if acc + lens[0] >= t {
        1
    } else {
        let r = start_from(lens.drop_first(), t, acc + lens[0]);
        if r == 0 {
            0
        } else {
            r + 1
        }
    }
}

pub open spec fn batch_lens(bs: Seq<DaBatch>) -> Seq<nat> {
    bs.map_values(|b: DaBatch| b.transactions@.len())
}

proof fn lemma_start_from_range(lens: Seq<nat>, t: nat, acc: nat)
    ensures
        0 <= start_from(lens, t, acc) <= lens.len(),
    decreases lens.len(),
{
    if lens.len() > 0 {
        lemma_start_from_range(lens.drop_first(), t, acc + lens[0]);
    }
}

/// Where replay resumes after a snapshot of `t` transactions: at the batch
/// in which the running count of transactions reaches `t`, so that the
/// transactions of that batch past the snapshot are replayed; at the first
/// batch when the count never reaches `t`.
pub open spec fn resume_batch(lens: Seq<nat>, t: nat) -> int {
    let k = start_from(lens, t, 0);
    if k == 0 {
        0
    } else {
        k - 1
    }
}

/// Index of the first batch to replay after a snapshot of `snap_txs`
/// transactions.
pub fn snapshot_start(batches: &Vec<DaBatch>, snap_txs: u64) -> (r: usize)
    ensures
        r == resume_batch(batch_lens(batches@), snap_txs as nat),
        r < batches@.len() || r == 0,
{
    let ghost lens = batch_lens(batches@);
    proof {
        lemma_start_from_range(lens, snap_txs as nat, 0);
        assert(lens.skip(0) =~= lens);
    }
    let mut cumulative: u128 = 0;
    let mut i: usize = 0;
    while i < batches.len()
        invariant
            0 <= i <= batches@.len(),
            lens == batch_lens(batches@),
            cumulative <= i * 0x1_0000_0000_0000_0000,
            start_from(lens, snap_txs as nat, 0) == if start_from(
                lens.skip(i as int),
                snap_txs as nat,
                cumulative as nat,
            ) == 0 {
                0
            } else {
                i + start_from(lens.skip(i as int), snap_txs as nat, cumulative as nat)
            },
        decreases batches@.len() - i,
    {
        let len = batches[i].transactions.len();
        let ghost x0 = start_from(lens.skip(i as int), snap_txs as nat, cumulative as nat);
        proof {
            assert(start_from(lens, snap_txs as nat, 0) == if x0 == 0 {
                0
            } else {
                i + x0
            });
            assert(lens[i as int] == batches@[i as int].transactions@.len());
            assert(lens.skip(i as int)[0] == lens[i as int]);
            assert(lens.skip(i as int).drop_first() =~= lens.skip(i + 1));
            assert(i * 0x1_0000_0000_0000_0000 <= usize::MAX * 0x1_0000_0000_0000_0000)
                by (nonlinear_arith)
                requires
                    i <= usize::MAX,
            ;
        }
        let ghost c0 = cumulative;
        cumulative = cumulative + len as u128;
        if cumulative >= snap_txs as u128 {
            return i;
        }
        let ghost r1 = start_from(lens.skip(i + 1), snap_txs as nat, cumulative as nat);
        proof {
            lemma_start_from_range(lens.skip(i + 1), snap_txs as nat, cumulative as nat);
            assert(x0 == if r1 == 0 {
                0
            } else {
                r1 + 1
            });
            assert((i + 1) * 0x1_0000_0000_0000_0000 == i * 0x1_0000_0000_0000_0000
                + 0x1_0000_0000_0000_0000) by (nonlinear_arith);
            assert(cumulative as nat == c0 as nat + lens[i as int]);
            assert(start_from(lens, snap_txs as nat, 0) == if r1 == 0 {
                0
            } else {
                (i + 1) + r1
            });
        }
        i = i + 1;
    }
    proof {
        assert(lens.skip(i as int).len() == 0);
    }
    0
}

} // verus!

verus! {

/// What a recovery reports.
#[derive(Debug)]
pub struct RecoveryReport {
    pub batches_replayed: usize,
    pub transactions_replayed: usize,
    pub final_state_root: String,
    pub accounts_recovered: usize,
    pub apps_recovered: usize,
    pub warnings: Vec<String>,
}

pub open spec fn warn_view(w: Seq<String>) -> Seq<Seq<char>> {
    w.map_values(|s: String| s@)
}

pub open spec fn rec_of(st: &AppState, count: nat, w: Seq<Seq<char>>) -> RecState {
    RecState { l: ledger(st), hist: st.history@, count, warnings: w }
}

/// The merchant side of the state, which recovery keeps as it found it.
pub open spec fn same_base(a: &AppState, b: &AppState) -> bool {
    &&& a.pending_invoices@ == b.pending_invoices@
    &&& a.merchants@ == b.merchants@
    &&& a.key_index@ == b.key_index@
    &&& a.invoices@ == b.invoices@
    &&& a.payments@ == b.payments@
    &&& a.total_volume_sats == b.total_volume_sats
    &&& a.deposits@ == b.deposits@
}

fn skip_warning_text(id: u64, txid: &str, e: &str) -> (r: String)
    ensures
        r@ == skip_warning(id, txid@, e@),
{
    proof {
        reveal_strlit("Batch #");
        reveal_strlit(" tx '");
        reveal_strlit("' skipped: ");
    }
    let mut s = owned("Batch #");
    let n = crate::text::u64_to_string(id);
    push_str(&mut s, n.as_str());
    push_str(&mut s, " tx '");
    let h = crate::crypto::cut_text(txid, 16);
    push_str(&mut s, h.as_str());
    push_str(&mut s, "' skipped: ");
    push_str(&mut s, e);
    s
}

fn root_warning_text(id: u64, expected: &str, got: &str) -> (r: String)
    ensures
        r@ == root_warning(id, expected@, got@),
{
    proof {
        reveal_strlit("Batch #");
        reveal_strlit(" root mismatch (expected ");
        reveal_strlit("... got ");
        reveal_strlit("...)");
    }
    let mut s = owned("Batch #");
    let n = crate::text::u64_to_string(id);
    push_str(&mut s, n.as_str());
    push_str(&mut s, " root mismatch (expected ");
    let a = crate::crypto::cut_text(expected, 12);
    push_str(&mut s, a.as_str());
    push_str(&mut s, "... got ");
    let b = crate::crypto::cut_text(got, 12);
    push_str(&mut s, b.as_str());
    push_str(&mut s, "...)");
    s
}

fn final_warning_text(got: &str, expected: &str) -> (r: String)
    ensures
        r@ == final_warning(got@, expected@),
{
    proof {
        reveal_strlit("Final root mismatch vs L1 (got ");
        reveal_strlit("... expected ");
        reveal_strlit("...)");
    }
    let mut s = owned("Final root mismatch vs L1 (got ");
    let a = crate::crypto::cut_text(got, 12);
    push_str(&mut s, a.as_str());
    push_str(&mut s, "... expected ");
    let b = crate::crypto::cut_text(expected, 12);
    push_str(&mut s, b.as_str());
    push_str(&mut s, "...)");
    s
}

/// Replays a batch's transactions in order.
fn run_txs(
    state: &mut AppState,
    txs: &Vec<TxRecord>,
    id: u64,
    warn: bool,
    count: &mut usize,
    warnings: &mut Vec<String>,
)
    requires
        *old(count) <= old(state).history@.len(),
    ensures
        rec_of(final(state), *final(count) as nat, warn_view(final(warnings)@)) == txs_run(
            rec_of(old(state), *old(count) as nat, warn_view(old(warnings)@)),
            txs@,
            id,
            warn,
        ),
        *final(count) <= final(state).history@.len(),
        same_base(old(state), final(state)),
        final(state).total_transactions == old(state).total_transactions,
{
    let ghost s0 = rec_of(state, *count as nat, warn_view(warnings@));
    let mut i: usize = 0;
    proof {
        assert(txs@.take(0) =~= Seq::<TxRecord>::empty());
    }
    while i < txs.len()
        invariant
            0 <= i <= txs@.len(),
            *count <= state.history@.len(),
            rec_of(state, *count as nat, warn_view(warnings@)) == txs_run(
                s0,
                txs@.take(i as int),
                id,
                warn,
            ),
            same_base(old(state), state),
            state.total_transactions == old(state).total_transactions,
        decreases txs@.len() - i,
    {
        let tx = &txs[i];
        proof {
            assert(txs@.take(i + 1).drop_last() =~= txs@.take(i as int));
            assert(txs@.take(i + 1).last() == *tx);
        }
        let ghost before = rec_of(state, *count as nat, warn_view(warnings@));
        if !history_has(&state.history, tx.txid.as_str()) {
            let r = replay_tx(state, tx);
            match r {
                Ok(()) => {
                    state.history.push(copy_tx(tx));
                    let hl = state.history.len();
                    *count = *count + 1;
                    proof {
                        assert(state.history@ =~= before.hist.push(*tx));
                    }
                },
                Err(e) => {
                    if warn {
                        let w = skip_warning_text(id, tx.txid.as_str(), e.as_str());
                        let ghost wv = warnings@;
                        warnings.push(w);
                        proof {
                            assert(warn_view(warnings@) =~= warn_view(wv).push(w@));
                        }
                    }
                },
            }
        }
        i = i + 1;
    }
    proof {
        assert(txs@.take(txs@.len() as int) =~= txs@);
    }
}

/// Replays one batch and checks its state root.
fn run_batch(state: &mut AppState, b: &DaBatch, count: &mut usize, warnings: &mut Vec<String>)
    requires
        *old(count) <= old(state).history@.len(),
    ensures
        rec_of(final(state), *final(count) as nat, warn_view(final(warnings)@)) == batch_run(
            rec_of(old(state), *old(count) as nat, warn_view(old(warnings)@)),
            *b,
        ),
        *final(count) <= final(state).history@.len(),
        same_base(old(state), final(state)),
        final(state).total_transactions == old(state).total_transactions,
{
    run_txs(state, &b.transactions, b.id, true, count, warnings);
    if !b.state_root.as_str().is_empty() {
        let computed = crate::settlement::build_merkle_root(&state.balances);
        if !str_eq(computed.as_str(), b.state_root.as_str()) {
            let w = root_warning_text(b.id, b.state_root.as_str(), computed.as_str());
            let ghost wv = warnings@;
            warnings.push(w);
            proof {
                assert(warn_view(warnings@) =~= warn_view(wv).push(w@));
            }
        }
    }
}

/// The ledger that recovery starts from: the snapshot's, or an empty one.
pub open spec fn empty_ledger() -> LedgerView {
    LedgerView {
        balances: Seq::empty(),
        stats: NetworkStats {
            total_transfers: 0,
            total_volume_lsat: 0,
            total_pegins: 0,
            total_pegouts: 0,
            total_apps: 0,
        },
        apps: Seq::empty(),
        tokens: Seq::empty(),
        withdrawals: Seq::empty(),
        processed: Seq::empty(),
        root: Seq::empty(),
    }
}

pub open spec fn base_rec(snapshot: Option<AppState>) -> RecState {
    match snapshot {
        Some(s) => rec_of(&s, 0, Seq::empty()),
        None => RecState { l: empty_ledger(), hist: Seq::empty(), count: 0, warnings: Seq::empty() },
    }
}

/// First batch to replay.
pub open spec fn start_index(bs: Seq<DaBatch>, snapshot: Option<AppState>) -> int {
    match snapshot {
        Some(s) => resume_batch(batch_lens(bs), s.total_transactions as nat),
        None => 0,
    }
}

/// The replay of everything after the snapshot, then of the pending batch
/// (whose refused transactions give no warnings).
pub open spec fn recovered(bs: Seq<DaBatch>, snapshot: Option<AppState>, pending: Option<DaBatch>) -> RecState {
    let s1 = batches_run(base_rec(snapshot), bs.skip(start_index(bs, snapshot)));
    match pending {
        Some(p) => if p.transactions@.len() > 0 {
            txs_run(s1, p.transactions@, p.id, false)
        } else {
            s1
        },
        None => s1,
    }
}

/// The merchant side of the recovered state: the snapshot's, or empty.
pub open spec fn base_kept(snapshot: Option<AppState>, st: &AppState) -> bool {
    match snapshot {
        Some(s) => same_base(&s, st),
        None => {
            &&& st.pending_invoices@.len() == 0
            &&& st.merchants@.len() == 0
            &&& st.key_index@.len() == 0
            &&& st.invoices@.len() == 0
            &&& st.payments@.len() == 0
            &&& st.total_volume_sats == 0
            &&& st.deposits@.len() == 0
        },
    }
}

/// Rebuilds the state from what the DA layer holds: the latest snapshot (if
/// any), the committed batches after it in order of id, and the pending
/// batch. Transactions already in the history are skipped; refused ones are
/// reported; each batch's state root and, at the end, the expected root
/// from L1 are checked against the recomputed root.
pub fn recover_from_batches(
    batches: &Vec<DaBatch>,
    snapshot: Option<AppState>,
    pending: Option<&DaBatch>,
    expected_root: Option<&str>,
) -> (r: (AppState, RecoveryReport))
    ensures
        ({
            let f = recovered(
                batches@,
                snapshot,
                match pending {
                    Some(p) => Some(*p),
                    None => None,
                },
            );
            let root = crate::settlement::merkle_root_spec(f.l.balances);
            &&& ledger(&r.0) == LedgerView { root, ..f.l }
            &&& r.0.history@ == f.hist
            &&& r.0.total_transactions == f.hist.len() as u64
            &&& base_kept(snapshot, &r.0)
            &&& r.1.batches_replayed == batches@.len() - start_index(batches@, snapshot)
            &&& r.1.transactions_replayed == f.count
            &&& r.1.final_state_root@ == root
            &&& r.1.accounts_recovered == f.l.balances.len()
            &&& r.1.apps_recovered == f.l.apps.len()
            &&& warn_view(r.1.warnings@) == f.warnings + match expected_root {
                Some(e) => if root != e@ {
                    seq![final_warning(root, e@)]
                } else {
                    Seq::empty()
                },
                None => Seq::empty(),
            }
        }),
{
    let mut warnings: Vec<String> = Vec::new();
    let (mut state, start) = match snapshot {
        Some(s) => {
            let st = snapshot_start(batches, s.total_transactions);
            (s, st)
        },
        None => (AppState::new(), 0),
    };
    proof {
        assert(rec_of(&state, 0, warn_view(warnings@)) == base_rec(snapshot)) by {
            if snapshot is None {
                assert(map_vals(state.apps@, app_view_fn()) =~= Seq::<(Seq<char>, AppInfoView)>::empty());
                assert(map_vals(state.withdrawals@, withdrawal_view_fn()) =~= Seq::<(Seq<char>, WithdrawalView)>::empty());
                assert(state.balances@ =~= Seq::<(Seq<char>, u64)>::empty());
                assert(state.app_token_balances@ =~= Seq::<(Seq<char>, u64)>::empty());
                assert(state.processed_txs@ =~= Seq::<(Seq<char>, ())>::empty());
                assert(state.latest_state_root@ =~= Seq::<char>::empty());
                assert(state.history@ =~= Seq::<TxRecord>::empty());
                assert(ledger(&state) =~= empty_ledger());
                assert(warn_view(warnings@) =~= Seq::<Seq<char>>::empty());
            } else {
                assert(warn_view(warnings@) =~= Seq::<Seq<char>>::empty());
            }
        }
    }
    let ghost s0 = base_rec(snapshot);
    let ghost base = state;
    let mut count: usize = 0;
    let mut bi: usize = start;
    let n = batches.len();
    proof {
        assert(batches@.skip(start as int).take(0) =~= Seq::<DaBatch>::empty());
    }
    while bi < n
        invariant
            start <= bi <= n,
            n == batches@.len(),
            start == start_index(batches@, snapshot),
            count <= state.history@.len(),
            s0 == base_rec(snapshot),
            rec_of(&state, count as nat, warn_view(warnings@)) == batches_run(
                s0,
                batches@.skip(start as int).take(bi - start),
            ),
            same_base(&base, &state),
            base_kept(snapshot, &base),
        decreases n - bi,
    {
        let b = &batches[bi];
        proof {
            let sk = batches@.skip(start as int);
            assert(sk.take(bi + 1 - start).drop_last() =~= sk.take(bi - start));
            assert(sk.take(bi + 1 - start).last() == *b);
        }
        run_batch(&mut state, b, &mut count, &mut warnings);
        bi = bi + 1;
    }
    proof {
        let sk = batches@.skip(start as int);
        assert(sk.take(n - start) =~= sk);
    }
    match pending {
        Some(p) => {
            if p.transactions.len() > 0 {
                run_txs(&mut state, &p.transactions, p.id, false, &mut count, &mut warnings);
            }
        },
        None => {},
    }
    state.total_transactions = state.history.len() as u64;
    let final_root = crate::settlement::build_merkle_root(&state.balances);
    state.latest_state_root = final_root.clone();
    let ghost w_before = warnings@;
    match expected_root {
        Some(e) => {
            if !str_eq(final_root.as_str(), e) {
                let w = final_warning_text(final_root.as_str(), e);
                warnings.push(w);
                proof {
                    assert(warn_view(warnings@) =~= warn_view(w_before).push(w@));
                }
            } else {
                proof {
                    assert(warn_view(warnings@) =~= warn_view(w_before) + Seq::<Seq<char>>::empty());
                }
            }
        },
        None => {
            proof {
                assert(warn_view(warnings@) =~= warn_view(w_before) + Seq::<Seq<char>>::empty());
            }
        },
    }
    proof {
        assert(map_vals(state.apps@, app_view_fn()).len() == state.apps@.len());
    }
    let report = RecoveryReport {
        batches_replayed: n - start,
        transactions_replayed: count,
        final_state_root: final_root,
        accounts_recovered: state.balances.len(),
        apps_recovered: state.apps.len(),
        warnings,
    };
    (state, report)
}

} // verus!
