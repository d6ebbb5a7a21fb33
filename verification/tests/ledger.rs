use lumen::da_adapter::{
    batch_file_name, batch_hash, count_batch_files, highest_pending, is_batch_file, legacy_batch_id, newest_snapshot,
    parse_i64, pending_file_name, pending_id, snapshot_file_name, snapshot_ts, sort_batches, DaBatch,
};
use lumen::recovery::{parse_app_memo, parse_lsat_spent, recover_from_batches, replay_tx, snapshot_start};
use lumen::settlement::{build_merkle_root, generate_merkle_proof};
use lumen::snapshot::{export_balance_snapshot, export_balance_snapshot_at, join};
use lumen::state::{AppState, TxRecord, WithdrawalStatus};
use lumen::strmap::StrMap;
use sha2::{Digest, Sha256};

fn tx(id: &str, kind: &str, from: &str, to: &str, amount: u64) -> TxRecord {
    TxRecord {
        txid: id.to_string(),
        tx_type: kind.to_string(),
        from: from.to_string(),
        to: to.to_string(),
        amount,
        token: String::new(),
        memo: None,
        status: "Confirmed".to_string(),
        timestamp: 1_700_000_000,
        btc_txid: None,
    }
}

fn hex(b: &[u8]) -> String {
    b.iter().map(|x| format!("{:02x}", x)).collect()
}

fn leaf(addr: &str, bal: u64) -> [u8; 32] {
    let mut h = Sha256::new();
    h.update(addr.as_bytes());
    h.update(bal.to_le_bytes());
    h.finalize().into()
}

fn node(l: &[u8], r: &[u8]) -> [u8; 32] {
    let mut h = Sha256::new();
    h.update(l);
    h.update(r);
    h.finalize().into()
}

fn unhex(s: &str) -> Vec<u8> {
    (0..s.len()).step_by(2).map(|i| u8::from_str_radix(&s[i..i + 2], 16).unwrap()).collect()
}

// ── Memo parsers ─────────────────────────────────────────────────────────────

#[test]
fn app_memo_gives_token_and_rate() {
    assert_eq!(parse_app_memo(Some("App 'Quest' registered | 1 LSAT = 10 GOLD")), ("GOLD".to_string(), 10));
    assert_eq!(parse_app_memo(None), ("TOKEN".to_string(), 1));
    assert_eq!(parse_app_memo(Some("no separator")), ("TOKEN".to_string(), 1));
    assert_eq!(parse_app_memo(Some("x | 1 LSAT = many GEMS")), ("GEMS".to_string(), 1));
    assert_eq!(parse_app_memo(Some("x | 1 LSAT = 7")), ("TOKEN".to_string(), 7));
}

#[test]
fn lsat_spent_from_memo() {
    assert_eq!(parse_lsat_spent(Some("Spent 100 LSAT → 1000 GOLD")), 100);
    assert_eq!(parse_lsat_spent(None), 0);
    assert_eq!(parse_lsat_spent(Some("spent 100 LSAT")), 0);
    assert_eq!(parse_lsat_spent(Some("Spent lots")), 0);
}

// ── Replaying transactions ───────────────────────────────────────────────────

#[test]
fn replayed_transfer_moves_lsat_and_keeps_total() {
    let mut st = AppState::new();
    replay_tx(&mut st, &tx("f1", "Faucet", "System", "alice", 10_000)).unwrap();
    replay_tx(&mut st, &tx("t1", "Transfer", "alice", "bob", 5_000)).unwrap();
    assert_eq!(st.get_balance("alice"), 5_000);
    assert_eq!(st.get_balance("bob"), 5_000);
    assert_eq!(st.get_balance("alice") + st.get_balance("bob"), 10_000);
    assert_eq!(st.stats.total_transfers, 1);
    assert_eq!(st.stats.total_volume_lsat, 5_000);
    // Too little: nothing moves, and the transaction is still accepted.
    replay_tx(&mut st, &tx("t2", "Transfer", "alice", "bob", 6_000)).unwrap();
    assert_eq!(st.get_balance("alice"), 5_000);
    // The system account never sends.
    replay_tx(&mut st, &tx("t3", "Transfer", "System", "bob", 1)).unwrap();
    assert_eq!(st.get_balance("bob"), 5_000);
}

#[test]
fn unknown_transaction_type_is_refused() {
    let mut st = AppState::new();
    assert_eq!(replay_tx(&mut st, &tx("x", "Teleport", "a", "b", 1)), Err("Unknown tx type: Teleport".to_string()));
}

#[test]
fn pegin_counts_and_marks_bitcoin_tx() {
    let mut st = AppState::new();
    let mut p = tx("p1", "PegIn", "Bitcoin L1", "alice", 700);
    p.btc_txid = Some("btc1".to_string());
    replay_tx(&mut st, &p).unwrap();
    assert_eq!(st.get_balance("alice"), 700);
    assert_eq!(st.stats.total_pegins, 1);
    assert!(st.processed_txs.contains_key("btc1"));
}

#[test]
fn pegout_restores_withdrawal_with_24h_window() {
    let mut st = AppState::new();
    let mut w = tx("w1", "PegOut", "alice", "tb1qdest", 300);
    w.status = "InChallenge".to_string();
    replay_tx(&mut st, &w).unwrap();
    let req = st.withdrawals.get("w1").unwrap();
    assert_eq!(req.status, WithdrawalStatus::Pending);
    assert_eq!(req.challenge_deadline, 1_700_000_000 + 86_400);
    assert_eq!(req.amount, 300);
    assert_eq!(st.stats.total_pegouts, 1);
    // Replaying it again changes nothing.
    replay_tx(&mut st, &w).unwrap();
    assert_eq!(st.stats.total_pegouts, 1);
}

#[test]
fn token_purchase_pays_owner_and_mints_tokens() {
    let mut st = AppState::new();
    let mut reg = tx("r1", "AppRegister", "owner", "quest", 0);
    reg.memo = Some("App 'quest' registered | 1 LSAT = 10 GOLD".to_string());
    replay_tx(&mut st, &reg).unwrap();
    replay_tx(&mut st, &tx("f", "Faucet", "System", "player", 10_000)).unwrap();
    let mut buy = tx("b1", "AppTokenBuy", "player", "quest", 1000);
    buy.token = "GOLD".to_string();
    buy.memo = Some("Spent 100 LSAT → 1000 GOLD".to_string());
    replay_tx(&mut st, &buy).unwrap();
    assert_eq!(st.get_balance("player"), 9_900);
    assert_eq!(st.get_balance("owner"), 100);
    assert_eq!(*st.app_token_balances.get("quest:GOLD:player").unwrap(), 1000);
    assert_eq!(st.apps.get("quest").unwrap().lsat_collected, 100);
    assert_eq!(st.apps.get("quest").unwrap().rate_per_lsat, 10);
    // Tokens trade between players.
    let mut tt = tx("x1", "AppTokenTransfer", "player", "friend", 50);
    tt.token = "GOLD".to_string();
    replay_tx(&mut st, &tt).unwrap();
    assert_eq!(*st.app_token_balances.get("quest:GOLD:player").unwrap(), 950);
    assert_eq!(*st.app_token_balances.get("quest:GOLD:friend").unwrap(), 50);
}

#[test]
fn token_purchase_beyond_buyer_balance_is_refused() {
    let mut st = AppState::new();
    let mut reg = tx("r1", "AppRegister", "owner", "quest", 0);
    reg.memo = Some("App 'quest' registered | 1 LSAT = 10 GOLD".to_string());
    replay_tx(&mut st, &reg).unwrap();
    replay_tx(&mut st, &tx("f", "Faucet", "System", "player", 50)).unwrap();
    let mut buy = tx("b1", "AppTokenBuy", "player", "quest", 1000);
    buy.token = "GOLD".to_string();
    buy.memo = Some("Spent 100 LSAT → 1000 GOLD".to_string());
    assert_eq!(replay_tx(&mut st, &buy), Err("insufficient LSAT balance".to_string()));
    assert_eq!(st.get_balance("player"), 50);
    assert_eq!(st.get_balance("owner"), 0);
    assert!(st.app_token_balances.get("quest:GOLD:player").is_none());
    assert_eq!(st.apps.get("quest").unwrap().lsat_collected, 0);
}

#[test]
fn settlement_record_restores_root() {
    let mut st = AppState::new();
    let mut s = tx("s1", "Settlement", "System", "", 0);
    s.memo = Some("Root: abcdef...".to_string());
    replay_tx(&mut st, &s).unwrap();
    assert_eq!(st.latest_state_root, "abcdef");
}

#[test]
fn overflowing_credit_is_refused() {
    let mut st = AppState::new();
    st.set_balance("a", u64::MAX);
    assert_eq!(replay_tx(&mut st, &tx("f", "Faucet", "System", "a", 1)), Err("arithmetic overflow".to_string()));
    assert_eq!(st.get_balance("a"), u64::MAX);
}

// ── State root and proofs ────────────────────────────────────────────────────

#[test]
fn merkle_root_of_two_balances() {
    let mut b = StrMap::new();
    b.insert("bob".to_string(), 5u64);
    b.insert("alice".to_string(), 7u64);
    let expect = node(&leaf("alice", 7), &leaf("bob", 5));
    assert_eq!(build_merkle_root(&b), hex(&expect));
}

#[test]
fn merkle_root_pairs_odd_node_with_itself() {
    let mut b = StrMap::new();
    b.insert("a".to_string(), 1u64);
    b.insert("b".to_string(), 2u64);
    b.insert("c".to_string(), 3u64);
    let ab = node(&leaf("a", 1), &leaf("b", 2));
    let cc = node(&leaf("c", 3), &leaf("c", 3));
    assert_eq!(build_merkle_root(&b), hex(&node(&ab, &cc)));
}

#[test]
fn merkle_proof_rebuilds_root() {
    let mut b = StrMap::new();
    for (i, name) in ["d", "a", "c", "e", "b"].iter().enumerate() {
        b.insert(name.to_string(), (i as u64 + 1) * 100);
    }
    let root = build_merkle_root(&b);
    for name in ["a", "b", "c", "d", "e"] {
        let bal = *b.get(name).unwrap();
        let proof = generate_merkle_proof(&b, name).unwrap();
        let mut h = leaf(name, bal).to_vec();
        for (sib, is_left) in proof {
            let s = unhex(&sib);
            h = if is_left { node(&s, &h).to_vec() } else { node(&h, &s).to_vec() };
        }
        assert_eq!(hex(&h), root);
    }
    assert!(generate_merkle_proof(&b, "zz").is_none());
    // Five leaves: three levels above them.
    assert_eq!(generate_merkle_proof(&b, "a").unwrap().len(), 3);
}

#[test]
fn merkle_root_is_independent_of_insertion_order_and_64_hex_digits() {
    let mut x = StrMap::new();
    let mut y = StrMap::new();
    for (k, v) in [("carol", 3u64), ("alice", 1), ("bob", 2)] {
        x.insert(k.to_string(), v);
    }
    for (k, v) in [("bob", 2u64), ("carol", 3), ("alice", 1)] {
        y.insert(k.to_string(), v);
    }
    let r = build_merkle_root(&x);
    assert_eq!(r, build_merkle_root(&y));
    assert_eq!(r.len(), 64);
    assert!(r.chars().all(|c| c.is_ascii_hexdigit()));
    assert_eq!(build_merkle_root(&StrMap::new()).len(), 64);
    let mut one = StrMap::new();
    one.insert("solo".to_string(), 9u64);
    assert_eq!(generate_merkle_proof(&one, "solo").unwrap().len(), 0);
}

// ── Recovery ─────────────────────────────────────────────────────────────────

fn batch(id: u64, txs: Vec<TxRecord>, root: &str) -> DaBatch {
    DaBatch { id, timestamp: 0, hash: String::new(), state_root: root.to_string(), transactions: txs }
}

#[test]
fn recovery_replays_batches_and_reports() {
    let b1 = batch(1, vec![tx("f1", "Faucet", "System", "alice", 100), tx("t1", "Transfer", "alice", "bob", 40)], "");
    let b2 = batch(2, vec![tx("t1", "Transfer", "alice", "bob", 40), tx("z", "Nope", "a", "b", 1)], "");
    let batches = vec![b1, b2];
    let (st, report) = recover_from_batches(&batches, None, None, None);
    assert_eq!(st.get_balance("alice"), 60);
    assert_eq!(st.get_balance("bob"), 40);
    assert_eq!(report.batches_replayed, 2);
    // The repeated transfer is skipped, the unknown one is refused.
    assert_eq!(report.transactions_replayed, 2);
    assert_eq!(st.history.len(), 2);
    assert_eq!(report.warnings.len(), 1);
    assert_eq!(report.final_state_root, build_merkle_root(&st.balances));
    assert_eq!(st.latest_state_root, report.final_state_root);
    assert_eq!(report.accounts_recovered, 2);
}

#[test]
fn recovery_warns_on_root_mismatch() {
    let b1 = batch(1, vec![tx("f1", "Faucet", "System", "alice", 100)], "deadbeef");
    let (_, report) = recover_from_batches(&vec![b1], None, None, None);
    assert_eq!(report.warnings.len(), 1);
    assert!(report.warnings[0].starts_with("Batch #1 root mismatch"));
}

#[test]
fn snapshot_start_skips_covered_batches() {
    let batches = vec![
        batch(1, vec![tx("a", "Faucet", "S", "x", 1), tx("b", "Faucet", "S", "x", 1)], ""),
        batch(2, vec![tx("c", "Faucet", "S", "x", 1)], ""),
        batch(3, vec![tx("d", "Faucet", "S", "x", 1)], ""),
    ];
    assert_eq!(snapshot_start(&batches, 3), 1);
    assert_eq!(snapshot_start(&batches, 2), 0);
    assert_eq!(snapshot_start(&batches, 1), 0);
    assert_eq!(snapshot_start(&batches, 4), 2);
    assert_eq!(snapshot_start(&batches, 99), 0);
}

#[test]
fn recovery_resumes_inside_the_batch_a_snapshot_ends_in() {
    let f1 = tx("f1", "Faucet", "System", "alice", 100);
    let f2 = tx("f2", "Faucet", "System", "bob", 7);
    let mut snap = AppState::new();
    replay_tx(&mut snap, &f1).unwrap();
    snap.history.push(f1.clone());
    snap.total_transactions = 1;
    let batches = vec![batch(1, vec![f1, f2], "")];
    let (st, report) = recover_from_batches(&batches, Some(snap), None, None);
    assert_eq!(st.get_balance("alice"), 100);
    assert_eq!(st.get_balance("bob"), 7);
    assert_eq!(st.history.len(), 2);
    assert_eq!(st.total_transactions, 2);
    assert_eq!(report.batches_replayed, 1);
    assert_eq!(report.transactions_replayed, 1);
}

#[test]
fn recovery_warnings_survive_non_ascii_ids() {
    // A cut after 16 (or 12) bytes would split an "é": the whole text is quoted.
    let b1 = batch(1, vec![tx("aéééééééé", "Nope", "a", "b", 1)], "aéééééé");
    let (_, report) = recover_from_batches(&vec![b1], None, None, Some("aéééééé"));
    assert_eq!(report.warnings.len(), 3);
    assert_eq!(report.warnings[0], "Batch #1 tx 'aéééééééé' skipped: Unknown tx type: Nope");
    assert!(report.warnings[1].starts_with("Batch #1 root mismatch (expected aéééééé... got "));
    assert!(report.warnings[2].ends_with("... expected aéééééé...)"));
    // Where the cut falls between characters it is made.
    let b2 = batch(2, vec![tx("ééééééééé", "Nope", "a", "b", 1)], "");
    let (_, report) = recover_from_batches(&vec![b2], None, None, None);
    assert_eq!(report.warnings[0], "Batch #2 tx 'éééééééé' skipped: Unknown tx type: Nope");
}

// ── Balance snapshot ─────────────────────────────────────────────────────────

#[test]
fn snapshot_lists_richest_first() {
    let mut st = AppState::new();
    st.set_balance("small", 5);
    st.set_balance("big", 500);
    st.set_balance("mid", 50);
    st.latest_state_root = "r00t".to_string();
    st.total_transactions = 3;
    let text = export_balance_snapshot_at(&st, "2024-01-01T00:00:00+00:00");
    let expect = "# Lumen Network — Balance Snapshot\n\
# Generated:   2024-01-01T00:00:00+00:00\n\
# State Root:  r00t\n\
# Total Txs:   3\n\
# Accounts:    3\n\
# Apps:        0\n\
\n\
## LSAT Balances\n\
big: 500 LSAT\n\
mid: 50 LSAT\n\
small: 5 LSAT";
    assert_eq!(text, expect);
    assert!(export_balance_snapshot(&st).contains("big: 500 LSAT"));
}

#[test]
fn snapshot_lists_apps_and_pending_withdrawals() {
    let mut st = AppState::new();
    let mut reg = tx("r1", "AppRegister", "own", "quest", 0);
    reg.memo = Some("x | 1 LSAT = 10 GOLD".to_string());
    replay_tx(&mut st, &reg).unwrap();
    let mut w = tx("w1", "PegOut", "alice", "tb1qdest", 300);
    w.status = "Pending".to_string();
    w.timestamp = 10;
    replay_tx(&mut st, &w).unwrap();
    let text = export_balance_snapshot_at(&st, "now");
    assert!(text.ends_with(
        "## LSAT Balances\n\n## Registered Apps\nquest | quest | 1 LSAT = 10 GOLD | owner: own\n\n## Pending Withdrawals\nw1: 300 LSAT → tb1qdest (deadline: 86410)"
    ));
}

#[test]
fn join_lines_with_newlines() {
    assert_eq!(join(&vec!["a".to_string(), String::new(), "c".to_string()]), "a\n\nc");
    assert_eq!(join(&vec![]), "");
}

// ── DA files ─────────────────────────────────────────────────────────────────

#[test]
fn batch_files_are_json_but_not_snapshots_or_pending() {
    assert!(is_batch_file("batch_1_abc.json"));
    assert!(!is_batch_file("snapshot_1_abc.json"));
    assert!(!is_batch_file("pending_1.json"));
    assert!(!is_batch_file("batch_1.txt"));
    let names = vec!["batch_1_a.json".to_string(), "pending_2.json".to_string(), "b.json".to_string(), "x".to_string()];
    assert_eq!(count_batch_files(&names), 2);
}

#[test]
fn names_carry_ids_and_times() {
    assert_eq!(legacy_batch_id("batch_5_abc.json"), 5);
    assert_eq!(legacy_batch_id("batch_x_abc.json"), 0);
    assert_eq!(legacy_batch_id("batch.json"), 0);
    assert_eq!(snapshot_ts("snapshot_1700000000_abc.json"), Some(1_700_000_000));
    assert_eq!(snapshot_ts("snapshot_-5_abc.json"), Some(-5));
    assert_eq!(snapshot_ts("batch_1_abc.json"), None);
    assert_eq!(pending_id("pending_7.json"), Some(7));
    assert_eq!(pending_id("pending_7.txt"), None);
    assert_eq!(pending_id("batch_7.json"), None);
}

#[test]
fn parse_i64_edges() {
    assert_eq!(parse_i64("-9223372036854775808"), Some(i64::MIN));
    assert_eq!(parse_i64("9223372036854775807"), Some(i64::MAX));
    assert_eq!(parse_i64("9223372036854775808"), None);
    assert_eq!(parse_i64("+5"), Some(5));
    assert_eq!(parse_i64("-+5"), None);
    assert_eq!(parse_i64("-"), None);
    assert_eq!(parse_i64(""), None);
    assert_eq!(parse_i64("12a"), None);
}

#[test]
fn file_names_and_hashes() {
    let h = batch_hash("{}");
    assert_eq!(h, "44136fa355b3678a1146ad16f7e8649e94fb4fc21fe77e8310c060f61caaff8a");
    assert_eq!(batch_file_name("da", 3, &h), "da/batch_3_44136fa355b3.json");
    assert_eq!(pending_file_name("da", 4), "da/pending_4.json");
    assert_eq!(snapshot_file_name("da", 1700, &h), "da/snapshot_1700_44136fa355b3.json");
    assert_eq!(batch_file_name("da", 1, "short"), "da/batch_1_short.json");
}

#[test]
fn batches_sorted_by_id_stably() {
    let mut a = batch(2, vec![], "");
    a.hash = "first".to_string();
    let mut b = batch(2, vec![], "");
    b.hash = "second".to_string();
    let sorted = sort_batches(vec![a, batch(9, vec![], ""), b, batch(1, vec![], "")]);
    let ids: Vec<(u64, String)> = sorted.iter().map(|x| (x.id, x.hash.clone())).collect();
    assert_eq!(
        ids,
        vec![(1, String::new()), (2, "first".to_string()), (2, "second".to_string()), (9, String::new())]
    );
}

#[test]
fn newest_snapshot_and_highest_pending() {
    assert_eq!(newest_snapshot(&vec![5, 9, 9, 1]), Some(1));
    assert_eq!(newest_snapshot(&vec![]), None);
    assert_eq!(highest_pending(&vec![5, 9, 9, 1]), Some(2));
    assert_eq!(highest_pending(&vec![]), None);
}

// ── Maps and codecs ──────────────────────────────────────────────────────────

#[test]
fn map_insert_replaces_in_place() {
    let mut m: StrMap<u64> = StrMap::new();
    m.insert("a".to_string(), 1);
    m.insert("b".to_string(), 2);
    m.insert("a".to_string(), 3);
    assert_eq!(m.len(), 2);
    assert_eq!(m.get("a"), Some(&3));
    assert_eq!(m.key_at(0), "a");
    assert_eq!(m.remove("a"), Some(3));
    assert_eq!(m.get("a"), None);
    assert_eq!(m.get("b"), Some(&2));
    assert_eq!(m.remove("zz"), None);
}

#[test]
fn hex_roundtrip_and_decode_rules() {
    let bytes = vec![0u8, 1, 0xab, 0xff, 0x10];
    let h = lumen::text::to_hex(&bytes);
    assert_eq!(h, "0001abff10");
    assert_eq!(lumen::text::hex_decode(&h), Some(bytes));
    assert_eq!(lumen::text::hex_decode("ABcd"), Some(vec![0xab, 0xcd]));
    assert_eq!(lumen::text::hex_decode("abc"), None);
    assert_eq!(lumen::text::hex_decode("zz"), None);
    assert_eq!(lumen::text::parse_u64("+42"), Some(42));
    assert_eq!(lumen::text::parse_u64("18446744073709551616"), None);
}
