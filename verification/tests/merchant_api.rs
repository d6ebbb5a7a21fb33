use lumen::auth::{authenticate, extract_key, generate_key, hash_key, hmac_signature, key_hint, verify_signature, AuthError};
use lumen::default_ttl;
use lumen::merchant::{
    balance_for, delete_webhook, get_account, get_invoice, invoice_expiry, record_invoice, register, register_merchant,
    set_webhook, validate_invoice_request, ApiError, BalanceAnswer,
};
use lumen::payment::{apply_payment, handle_payment, legacy_mint, legacy_transfer, pay_decide, pay_finish, PayStep};
use lumen::rate_limit::RateLimiter;
use lumen::state::{status_text, AppState, InvoiceStatus, Timestamp};

fn t(secs: i64) -> Timestamp {
    Timestamp { secs, nanos: 0 }
}

fn sum_balances(st: &AppState, names: &[&str]) -> u64 {
    names.iter().map(|n| st.get_balance(n)).sum()
}

// ── Keys and signatures ──────────────────────────────────────────────────────

#[test]
fn api_key_has_prefix_and_32_hex_digits() {
    let k = generate_key();
    assert!(k.starts_with("lm_live_"));
    assert_eq!(k.len(), 40);
    assert!(k[8..].chars().all(|c| c.is_ascii_hexdigit() && !c.is_ascii_uppercase()));
    let k2 = generate_key();
    assert_ne!(k, k2);
}

#[test]
fn hash_key_is_hex_sha256() {
    assert_eq!(hash_key("abc"), "ba7816bf8f01cfea414140de5dae2223b00361a396177a9cb410ff61f20015ad");
    assert_eq!(hash_key(""), "e3b0c44298fc1c149afbf4c8996fb92427ae41e4649b934ca495991b7852b855");
}

#[test]
fn key_hint_keeps_sixteen_characters() {
    assert_eq!(key_hint("lm_live_0123456789abcdef"), "lm_live_01234567...");
    assert_eq!(key_hint("short"), "short...");
    assert_eq!(key_hint("ééééééééééééééééé"), "éééééééééééééééé...");
}

#[test]
fn hmac_signature_known_vector() {
    let s = hmac_signature("key", "The quick brown fox jumps over the lazy dog");
    assert_eq!(s, "sha256=f7bc83f430538424b13298e6aa6fb143ef4d59a14946175997479dbc2d1a3cd8");
    assert!(verify_signature("The quick brown fox jumps over the lazy dog", &s, "key"));
    assert!(!verify_signature("The quick brown fox jumps over the lazy cat", &s, "key"));
    assert!(!verify_signature("The quick brown fox jumps over the lazy dog", &s, "other"));
}

// ── Registration and authentication ──────────────────────────────────────────

#[test]
fn registered_key_authenticates_in_either_header() {
    let mut st = AppState::new();
    let (id, key) = register(&mut st, "  Alice Shop ", " Alice@Example.COM ", t(100)).unwrap();
    let by_header = authenticate(&st, None, Some(key.as_str())).unwrap();
    assert_eq!(by_header.0, id);
    let bearer = format!("Bearer {}", key);
    let by_bearer = authenticate(&st, Some(bearer.as_str()), None).unwrap();
    assert_eq!(by_bearer.0, id);
    let m = get_account(&st, &id).unwrap();
    assert_eq!(m.name, "Alice Shop");
    assert_eq!(m.email, "alice@example.com");
    assert_eq!(m.balance_sats, 0);
    assert_eq!(m.api_key_hash, hash_key(&key));
    assert_eq!(m.api_key_hint, key_hint(&key));
    assert_eq!(m.created_at, t(100));
}

#[test]
fn authentication_errors() {
    let mut st = AppState::new();
    register(&mut st, "Bob", "bob@example.com", t(1)).unwrap();
    assert!(matches!(authenticate(&st, None, None), Err(AuthError::MissingApiKey)));
    assert!(matches!(authenticate(&st, None, Some("lm_live_nope")), Err(AuthError::InvalidApiKey)));
    assert!(matches!(authenticate(&st, Some("Basic abc"), None), Err(AuthError::MissingApiKey)));
}

#[test]
fn extract_key_prefers_bearer_and_trims() {
    assert_eq!(extract_key(Some("Bearer  k1 "), Some("k2")), Some("k1".to_string()));
    assert_eq!(extract_key(Some("Token k1"), Some(" k2 ")), Some("k2".to_string()));
    assert_eq!(extract_key(None, None), None);
}

#[test]
fn registration_errors() {
    let mut st = AppState::new();
    assert_eq!(register(&mut st, "   ", "a@b.c", t(0)).unwrap_err(), ApiError::NameRequired);
    assert_eq!(register(&mut st, "A", "  ", t(0)).unwrap_err(), ApiError::EmailRequired);
    assert_eq!(register(&mut st, "A", "no-at-sign", t(0)).unwrap_err(), ApiError::InvalidEmail);
    register(&mut st, "A", "dup@example.com", t(0)).unwrap();
    // The address is lower-cased before it is compared.
    assert_eq!(register(&mut st, "B", "DUP@Example.com", t(0)).unwrap_err(), ApiError::EmailExists);
    assert_eq!(st.merchants.len(), 1);
}

#[test]
fn register_merchant_indexes_key_hash() {
    let mut st = AppState::new();
    register_merchant(&mut st, "Shop", "s@x.io", "lm_live_00112233445566778899aabbccddeeff", "m1".to_string(), t(5))
        .unwrap();
    let m = st.merchant_by_key("lm_live_00112233445566778899aabbccddeeff").unwrap();
    assert_eq!(m.id, "m1");
    assert!(st.merchant_by_key("lm_live_ffff").is_none());
}

// ── Invoices ─────────────────────────────────────────────────────────────────

#[test]
fn invoice_request_checks() {
    assert_eq!(validate_invoice_request(0, "x"), Err(ApiError::AmountRequired));
    assert_eq!(validate_invoice_request(10, "  \n"), Err(ApiError::DescriptionRequired));
    assert_eq!(validate_invoice_request(10, "coffee"), Ok(()));
    assert_eq!(default_ttl(), 3600);
}

#[test]
fn invoice_expiry_adds_seconds() {
    assert_eq!(invoice_expiry(Timestamp { secs: 1000, nanos: 7 }, 3600), Timestamp { secs: 4600, nanos: 7 });
}

#[test]
fn recorded_invoice_is_found_by_merchant_and_id() {
    let mut st = AppState::new();
    let inv = record_invoice(
        &mut st,
        &"m1".to_string(),
        500,
        "coffee".to_string(),
        "lnbc1...".to_string(),
        &"hash1".to_string(),
        "inv1".to_string(),
        t(10),
        60,
        Some("{\"order\":1}".to_string()),
    );
    assert_eq!(inv.status, InvoiceStatus::Pending);
    assert_eq!(inv.expires_at, t(70));
    assert_eq!(st.pending_invoices.get("hash1").unwrap(), "m1");
    let found = get_invoice(&st, "m1", "inv1").unwrap();
    assert_eq!(found.amount_sats, 500);
    assert_eq!(found.metadata.as_deref(), Some("{\"order\":1}"));
    assert_eq!(get_invoice(&st, "m2", "inv1").unwrap_err(), ApiError::InvoiceNotFound);
    assert_eq!(get_invoice(&st, "m1", "inv2").unwrap_err(), ApiError::InvoiceNotFound);
    assert_eq!(status_text(InvoiceStatus::Pending), "pending");
    assert_eq!(status_text(InvoiceStatus::Paid), "paid");
    assert_eq!(status_text(InvoiceStatus::Expired), "expired");
}

#[test]
fn invoices_listed_newest_first_at_most_100() {
    let mut st = AppState::new();
    for i in 0..105u64 {
        record_invoice(
            &mut st,
            &"m1".to_string(),
            i + 1,
            "d".to_string(),
            "b".to_string(),
            &format!("h{}", i),
            format!("i{}", i),
            t(i as i64),
            60,
            None,
        );
    }
    record_invoice(&mut st, &"m2".to_string(), 1, "d".to_string(), "b".to_string(), &"other".to_string(), "o".to_string(), t(999), 60, None);
    let list = st.invoices_for("m1");
    assert_eq!(list.len(), 100);
    assert_eq!(list[0].id, "i104");
    assert_eq!(list[99].id, "i5");
    assert!(list.windows(2).all(|w| w[0].created_at.secs >= w[1].created_at.secs));
    assert_eq!(st.invoices_for("m2").len(), 1);
    assert!(st.invoices_for("m3").is_empty());
}

#[test]
fn equal_times_keep_storage_order() {
    let mut st = AppState::new();
    for i in 0..3u64 {
        record_invoice(&mut st, &"m".to_string(), 1, "d".to_string(), "b".to_string(), &format!("h{}", i), format!("i{}", i), t(5), 60, None);
    }
    let ids: Vec<&str> = st.invoices_for("m").iter().map(|i| i.id.as_str()).collect();
    assert_eq!(ids, vec!["i0", "i1", "i2"]);
}

// ── Webhook configuration and balance ────────────────────────────────────────

#[test]
fn webhook_url_must_be_http() {
    let mut st = AppState::new();
    let (id, _) = register(&mut st, "S", "s@s.s", t(0)).unwrap();
    assert_eq!(set_webhook(&mut st, &id, "ftp://x".to_string(), None), Err(ApiError::InvalidWebhookUrl));
    assert_eq!(set_webhook(&mut st, &id, "https://hook.example/p".to_string(), Some("sec".to_string())), Ok(()));
    let m = get_account(&st, &id).unwrap();
    assert_eq!(m.webhook_url.as_deref(), Some("https://hook.example/p"));
    assert_eq!(m.webhook_secret.as_deref(), Some("sec"));
    delete_webhook(&mut st, &id);
    let m = get_account(&st, &id).unwrap();
    assert!(m.webhook_url.is_none() && m.webhook_secret.is_none());
    assert_eq!(get_account(&st, "nobody").unwrap_err(), ApiError::MerchantNotFound);
}

#[test]
fn balance_answer_merchant_or_legacy_account() {
    let mut st = AppState::new();
    let (id, _) = register(&mut st, "S", "s@s.s", t(0)).unwrap();
    match balance_for(&st, &id, None) {
        BalanceAnswer::Merchant { merchant_id, balance_sats } => {
            assert_eq!(merchant_id, id);
            assert_eq!(balance_sats, 0);
        }
        _ => panic!("expected the merchant's balance"),
    }
    st.set_balance("acct", 42);
    match balance_for(&st, "gone", Some("acct")) {
        BalanceAnswer::Account { account, balance_sats } => {
            assert_eq!(account, "acct");
            assert_eq!(balance_sats, 42);
        }
        _ => panic!("expected the legacy balance"),
    }
    match balance_for(&st, "gone", None) {
        BalanceAnswer::Account { account, balance_sats } => {
            assert_eq!(account, "anonymous");
            assert_eq!(balance_sats, 0);
        }
        _ => panic!("expected the anonymous balance"),
    }
}

// ── Payments ─────────────────────────────────────────────────────────────────

#[test]
fn payment_marks_invoice_paid_and_credits_merchant() {
    let mut st = AppState::new();
    let (id, _) = register(&mut st, "S", "s@s.s", t(0)).unwrap();
    set_webhook(&mut st, &id, "https://h.example".to_string(), Some("whsec".to_string())).unwrap();
    record_invoice(&mut st, &id, 2500, "tea".to_string(), "ln".to_string(), &"ph".to_string(), "inv".to_string(), t(1), 60, None);
    let target = apply_payment(&mut st, "ph", 2500, "pay1".to_string(), t(20)).unwrap();
    assert_eq!(target.merchant_id, id);
    assert_eq!(target.url, "https://h.example");
    assert_eq!(target.secret.as_deref(), Some("whsec"));
    assert_eq!(target.invoice_id, "inv");
    let inv = st.invoices.get("ph").unwrap();
    assert_eq!(inv.status, InvoiceStatus::Paid);
    assert_eq!(inv.paid_at, Some(t(20)));
    let m = get_account(&st, &id).unwrap();
    assert_eq!(m.balance_sats, 2500);
    assert_eq!(m.total_received_sats, 2500);
    let rec = st.payments.get("pay1").unwrap();
    assert_eq!(rec.invoice_id, "inv");
    assert_eq!(rec.amount_sats, 2500);
    assert_eq!(rec.payment_hash, "ph");
    assert_eq!(st.total_transactions, 1);
    assert_eq!(st.total_volume_sats, 2500);
    let ps = st.payments_for(&id);
    assert_eq!(ps.len(), 1);
}

#[test]
fn payment_without_webhook_returns_no_target() {
    let mut st = AppState::new();
    let (id, _) = register(&mut st, "S", "s@s.s", t(0)).unwrap();
    record_invoice(&mut st, &id, 1, "x".to_string(), "ln".to_string(), &"ph".to_string(), "inv".to_string(), t(1), 60, None);
    assert!(handle_payment(&mut st, "ph", 1).is_none());
    assert_eq!(st.payments.len(), 1);
    assert_eq!(get_account(&st, &id).unwrap().balance_sats, 1);
}

#[test]
fn merchant_credit_saturates() {
    let mut st = AppState::new();
    let (id, _) = register(&mut st, "S", "s@s.s", t(0)).unwrap();
    record_invoice(&mut st, &id, 1, "x".to_string(), "ln".to_string(), &"ph".to_string(), "inv".to_string(), t(1), 60, None);
    st.total_volume_sats = u64::MAX - 1;
    apply_payment(&mut st, "ph", 10, "p".to_string(), t(2));
    assert_eq!(st.total_volume_sats, u64::MAX);
    record_invoice(&mut st, &id, 1, "x".to_string(), "ln".to_string(), &"ph2".to_string(), "inv2".to_string(), t(1), 60, None);
    apply_payment(&mut st, "ph2", u64::MAX, "p2".to_string(), t(3));
    assert_eq!(get_account(&st, &id).unwrap().balance_sats, u64::MAX);
}

#[test]
fn legacy_pending_invoice_credits_account() {
    let mut st = AppState::new();
    st.pending_invoices.insert("legacy".to_string(), "acct".to_string());
    st.set_balance("acct", 5);
    assert!(apply_payment(&mut st, "legacy", 7, "p".to_string(), t(0)).is_none());
    assert_eq!(st.get_balance("acct"), 12);
    assert!(st.pending_invoices.get("legacy").is_none());
    assert_eq!(st.total_transactions, 1);
    assert!(st.payments.is_empty());
}

#[test]
fn unknown_payment_hash_changes_nothing() {
    let mut st = AppState::new();
    assert!(apply_payment(&mut st, "nothing", 7, "p".to_string(), t(0)).is_none());
    assert_eq!(st.total_transactions, 0);
    assert!(st.balances.is_empty());
}

// ── Legacy balance events ────────────────────────────────────────────────────

#[test]
fn legacy_transfer_moves_exact_amount() {
    let mut st = AppState::new();
    st.set_balance("a", 100);
    st.set_balance("b", 1);
    assert!(legacy_transfer(&mut st, "a", "b", 30));
    assert_eq!(st.get_balance("a"), 70);
    assert_eq!(st.get_balance("b"), 31);
    assert_eq!(sum_balances(&st, &["a", "b"]), 101);
    assert!(!legacy_transfer(&mut st, "a", "b", 71));
    assert_eq!(st.get_balance("a"), 70);
    assert_eq!(st.total_transactions, 1);
    // To oneself: the balance stays.
    assert!(legacy_transfer(&mut st, "a", "a", 70));
    assert_eq!(st.get_balance("a"), 70);
}

#[test]
fn legacy_mint_credits() {
    let mut st = AppState::new();
    legacy_mint(&mut st, "a", 9);
    legacy_mint(&mut st, "a", 1);
    assert_eq!(st.get_balance("a"), 10);
    assert_eq!(st.total_transactions, 2);
}

#[test]
fn legacy_pay_decisions() {
    let mut st = AppState::new();
    st.set_balance("a", 50);
    assert_eq!(pay_decide(&st, "a", None), PayStep::Refuse("invalid_invoice".to_string()));
    assert_eq!(pay_decide(&st, "a", Some(Some(51_000))), PayStep::Refuse("insufficient_funds".to_string()));
    assert_eq!(pay_decide(&st, "a", Some(Some(50_999))), PayStep::Send(50));
    assert_eq!(pay_decide(&st, "a", Some(None)), PayStep::Send(0));
    assert_eq!(pay_finish(&mut st, "a", 20, None), "routing_failed");
    assert_eq!(st.get_balance("a"), 50);
    assert_eq!(pay_finish(&mut st, "a", 20, Some(vec![0xab, 0x01])), "ab01");
    assert_eq!(st.get_balance("a"), 30);
    assert_eq!(st.total_transactions, 1);
}

// ── Rate limiting ────────────────────────────────────────────────────────────

#[test]
fn rate_limit_counts_within_window() {
    let mut rl = RateLimiter::new();
    assert!(rl.check_at("c", 2, 60, 1000));
    assert!(rl.check_at("c", 2, 60, 1010));
    assert!(!rl.check_at("c", 2, 60, 1020));
    // A refused request leaves the entry as it was.
    assert_eq!(*rl.requests.get("c").unwrap(), (2, 1000));
    // Past the window the count starts again.
    assert!(rl.check_at("c", 2, 60, 1061));
    assert_eq!(*rl.requests.get("c").unwrap(), (1, 1061));
    // Other clients are counted apart.
    assert!(rl.check_at("d", 2, 60, 1020));
    assert!(rl.check("e", 5, 60));
}

#[test]
fn rate_limit_first_requests_of_a_window_pass() {
    for limit in [0u64, 1, 3, 7] {
        let mut rl = RateLimiter::new();
        let got: Vec<bool> = (0..5i64).map(|j| rl.check_at("c", limit, 60, 100 + 10 * j)).collect();
        let want: Vec<bool> = (0..5u64).map(|j| j < limit).collect();
        assert_eq!(got, want);
    }
}

#[test]
fn rate_limit_zero_refuses_but_records() {
    let mut rl = RateLimiter::new();
    assert!(!rl.check_at("c", 0, 60, 5));
    assert_eq!(*rl.requests.get("c").unwrap(), (0, 5));
}
