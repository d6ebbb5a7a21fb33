use base64::Engine;
use bitcoin::consensus::Encodable;
use lumen::base58::to_base58;
use lumen::bridge::{credit_deposit, deposit_address, is_deposit_candidate, WalletTx};
use lumen::btc_api::{tx_url, utxo_url, Utxo, UtxoStatus};
use lumen::btc_tx::PlainTx;
use lumen::cli::{mint_instruction, transfer_instruction, wallet_address};
use lumen::mempool::init_mempool;
use lumen::node_config::{default_esplora, network_for, NetworkKind};
use lumen::settlement::{create_settlement_tx, plan_settlement};
use lumen::spv::SpvVerifier;
use lumen::state::AppState;
use lumen::vm::{finish_run, process, Account, LumenVM, Pubkey, VmError};
use lumen::wallet::{pubkey_to_address, signed_message_data, signed_message_hash, verify_signature, AddressError, LocalWallet};
use lumen::webhook::{api_version, delivery_step, payment_received_event, signature_header, DeliveryStep};
use lumen::withdraw::{create_batch_withdrawal_tx, plan_batch_withdrawal, BatchTarget, WithdrawError};

fn secp_key(byte: u8) -> bitcoin::secp256k1::SecretKey {
    bitcoin::secp256k1::SecretKey::from_slice(&[byte; 32]).unwrap()
}

fn testnet_wallet(byte: u8) -> LocalWallet {
    let pk = bitcoin::PrivateKey::new(secp_key(byte), bitcoin::Network::Testnet);
    let secp = bitcoin::secp256k1::Secp256k1::new();
    let address = bitcoin::Address::p2pkh(&pk.public_key(&secp), bitcoin::Network::Testnet).to_string();
    LocalWallet { secret_wif: pk.to_wif(), address }
}

fn testnet_address(byte: u8) -> String {
    let secp = bitcoin::secp256k1::Secp256k1::new();
    let pk = bitcoin::PrivateKey::new(secp_key(byte), bitcoin::Network::Testnet).public_key(&secp);
    bitcoin::Address::p2wpkh(&pk, bitcoin::Network::Testnet).unwrap().to_string()
}

fn mainnet_address(byte: u8) -> String {
    let secp = bitcoin::secp256k1::Secp256k1::new();
    let pk = bitcoin::PrivateKey::new(secp_key(byte), bitcoin::Network::Bitcoin).public_key(&secp);
    bitcoin::Address::p2wpkh(&pk, bitcoin::Network::Bitcoin).unwrap().to_string()
}

fn utxo(n: u8, value: u64) -> Utxo {
    Utxo { txid: format!("{:02x}", n).repeat(32), vout: n as u32, value, status: UtxoStatus { confirmed: true } }
}

fn target(address: &str, amount: u64) -> BatchTarget {
    BatchTarget { address: address.to_string(), amount }
}

fn to_bitcoin(tx: &PlainTx) -> bitcoin::Transaction {
    bitcoin::Transaction {
        version: tx.version,
        lock_time: bitcoin::absolute::LockTime::from_consensus(tx.lock_time),
        input: tx
            .inputs
            .iter()
            .map(|x| bitcoin::TxIn {
                previous_output: bitcoin::OutPoint::new(bitcoin::hashes::Hash::from_byte_array(x.0), x.1),
                script_sig: bitcoin::ScriptBuf::from(x.2.clone()),
                sequence: bitcoin::Sequence::MAX,
                witness: bitcoin::Witness::new(),
            })
            .collect(),
        output: tx
            .outputs
            .iter()
            .map(|o| bitcoin::TxOut { value: o.0, script_pubkey: bitcoin::ScriptBuf::from(o.1.clone()) })
            .collect(),
    }
}

/// Every input carries `<sig + 0x01> <pubkey>` with a valid ECDSA signature
/// of the input's legacy sighash under the wallet's key.
fn assert_signed_by(tx: &PlainTx, w: &LocalWallet) {
    let secp = bitcoin::secp256k1::Secp256k1::new();
    let key = bitcoin::PrivateKey::from_wif(&w.secret_wif).unwrap();
    let pk = key.public_key(&secp);
    let prev = w.get_address_obj().unwrap();
    let mut unsigned = tx.clone();
    for x in unsigned.inputs.iter_mut() {
        x.2 = Vec::new();
    }
    let btx = to_bitcoin(&unsigned);
    let cache = bitcoin::sighash::SighashCache::new(&btx);
    for (i, x) in tx.inputs.iter().enumerate() {
        let script = &x.2;
        let l = script[0] as usize;
        assert_eq!(script[l], 1);
        let der = &script[1..l];
        assert_eq!(script[l + 1] as usize, script.len() - l - 2);
        assert_eq!(&script[l + 2..], &pk.to_bytes()[..]);
        let h = cache.legacy_signature_hash(i, bitcoin::Script::from_bytes(&prev), 1).unwrap();
        let msg = bitcoin::secp256k1::Message::from_slice(&bitcoin::hashes::Hash::to_byte_array(h)).unwrap();
        let sig = bitcoin::secp256k1::ecdsa::Signature::from_der(der).unwrap();
        assert!(secp.verify_ecdsa(&msg, &sig, &pk.inner).is_ok());
    }
}

// ── Base58 ───────────────────────────────────────────────────────────────────

#[test]
fn base58_known_values() {
    assert_eq!(to_base58(&[0u8; 32]), "11111111111111111111111111111111");
    assert_eq!(to_base58(b"Hello World!"), "2NEpo7TZRRrLZSi2U");
    assert_eq!(to_base58(&[0, 0, 1]), "112");
    assert_eq!(to_base58(&[]), "");
    assert_eq!(to_base58(&[57]), "z");
    assert_eq!(to_base58(&[58]), "21");
}

// ── Signed messages ──────────────────────────────────────────────────────────

#[test]
fn signed_message_commits_to_prefix_length_and_text() {
    let d = signed_message_data("hi");
    let mut expect = vec![24u8];
    expect.extend_from_slice(b"Bitcoin Signed Message:\n");
    expect.push(2);
    expect.extend_from_slice(b"hi");
    assert_eq!(d, expect);
    let h: bitcoin::hashes::sha256d::Hash = bitcoin::hashes::Hash::hash(&expect);
    assert_eq!(signed_message_hash("hi"), bitcoin::hashes::Hash::to_byte_array(h));
}

#[test]
fn message_signature_checks_against_key() {
    let secp = bitcoin::secp256k1::Secp256k1::new();
    let sk = secp_key(7);
    let pk = bitcoin::secp256k1::PublicKey::from_secret_key(&secp, &sk);
    let digest = signed_message_hash("pay 5000 LSAT");
    let msg = bitcoin::secp256k1::Message::from_slice(&digest).unwrap();
    let sig = secp.sign_ecdsa_recoverable(&msg, &sk);
    let (rec_id, compact) = sig.serialize_compact();
    let mut bytes = vec![31u8 + rec_id.to_i32() as u8];
    bytes.extend_from_slice(&compact);
    let b64 = base64::engine::general_purpose::STANDARD.encode(&bytes);
    let pk_hex = pk.to_string();
    assert!(verify_signature("pay 5000 LSAT", &b64, &pk_hex));
    assert!(!verify_signature("pay 5001 LSAT", &b64, &pk_hex));
    let other = bitcoin::secp256k1::PublicKey::from_secret_key(&secp, &secp_key(8)).to_string();
    assert!(!verify_signature("pay 5000 LSAT", &b64, &other));
    assert!(!verify_signature("pay 5000 LSAT", "not base64!", &pk_hex));
    assert!(!verify_signature("pay 5000 LSAT", &b64, "zz"));
    let short = base64::engine::general_purpose::STANDARD.encode(&bytes[..64]);
    assert!(!verify_signature("pay 5000 LSAT", &short, &pk_hex));
}

#[test]
fn pubkey_gives_testnet_segwit_address() {
    let secp = bitcoin::secp256k1::Secp256k1::new();
    let pk = bitcoin::PrivateKey::new(secp_key(3), bitcoin::Network::Testnet).public_key(&secp);
    let expect = bitcoin::Address::p2wpkh(&pk, bitcoin::Network::Testnet).unwrap().to_string();
    assert_eq!(pubkey_to_address(&pk.to_string()), Some(expect));
    assert_eq!(pubkey_to_address("nothex"), None);
}

#[test]
fn random_wallet_has_parsable_address() {
    let w = LocalWallet::new_random();
    assert!(w.get_address_obj().is_some());
    assert!(bitcoin::PrivateKey::from_wif(&w.secret_wif).is_ok());
    assert!(w.address.starts_with('m') || w.address.starts_with('n'));
    let bad = LocalWallet { secret_wif: String::new(), address: "nope".to_string() };
    assert!(bad.get_address_obj().is_none());
}

// ── Withdrawals ──────────────────────────────────────────────────────────────

#[test]
fn withdrawal_errors() {
    let w = testnet_wallet(1);
    let a = testnet_address(2);
    let us = vec![utxo(1, 100_000)];
    assert!(matches!(plan_batch_withdrawal(&w, &us, &vec![]), Err(WithdrawError::NoTargets)));
    assert!(matches!(plan_batch_withdrawal(&w, &us, &vec![target(&a, 545)]), Err(WithdrawError::AllDust)));
    assert!(matches!(
        plan_batch_withdrawal(&w, &us, &vec![target(&mainnet_address(2), 1000)]),
        Err(WithdrawError::InvalidAddress(AddressError::WrongNetwork))
    ));
    assert!(matches!(
        plan_batch_withdrawal(&w, &us, &vec![target("garbage", 1000)]),
        Err(WithdrawError::InvalidAddress(AddressError::Parse(_)))
    ));
    // A dust target is skipped before its address is looked at.
    assert!(matches!(plan_batch_withdrawal(&w, &us, &vec![target("garbage", 10)]), Err(WithdrawError::AllDust)));
    let bad_txid = vec![Utxo { txid: "xyz".to_string(), vout: 0, value: 1, status: UtxoStatus { confirmed: true } }];
    assert!(matches!(plan_batch_withdrawal(&w, &bad_txid, &vec![target(&a, 1000)]), Err(WithdrawError::InvalidTxid(_))));
    match plan_batch_withdrawal(&w, &vec![utxo(1, 1000), utxo(2, 500)], &vec![target(&a, 1000)]) {
        Err(WithdrawError::InsufficientFunds { need, have }) => {
            assert_eq!(need, 2050);
            assert_eq!(have, 1500);
            let e = WithdrawError::InsufficientFunds { need, have };
            assert_eq!(e.message(), "Insufficient funds: Need 2050, have 1500");
        }
        _ => panic!("expected insufficient funds"),
    }
    let nowallet = LocalWallet { secret_wif: String::new(), address: "nope".to_string() };
    assert!(matches!(plan_batch_withdrawal(&nowallet, &us, &vec![target(&a, 1000)]), Err(WithdrawError::WalletAddress)));
    assert_eq!(WithdrawError::NoTargets.message(), "No withdrawal targets provided");
    assert_eq!(WithdrawError::AllDust.message(), "All targets were below dust limit");
    assert_eq!(WithdrawError::InvalidAddress(AddressError::WrongNetwork).message(), "Invalid Testnet address");
}

#[test]
fn withdrawal_plan_pays_targets_fee_and_change() {
    let w = testnet_wallet(1);
    let a = testnet_address(2);
    let b = testnet_address(3);
    let us = vec![utxo(1, 3000), utxo(2, 5000), utxo(3, 9000)];
    let ts = vec![target(&a, 2000), target(&b, 100), target(&b, 3000)];
    let plan = plan_batch_withdrawal(&w, &us, &ts).ok().unwrap();
    // need = 5000 + 1000 + 2 * 50 = 6100, reached by the first two outputs (8000).
    assert_eq!(plan.inputs.len(), 2);
    let values: Vec<u64> = plan.outputs.iter().map(|o| o.0).collect();
    assert_eq!(values, vec![2000, 3000, 1900]);
    let script_of = |s: &str| s.parse::<bitcoin::Address<_>>().unwrap().assume_checked().script_pubkey().into_bytes();
    assert_eq!(plan.outputs[0].1, script_of(&a));
    assert_eq!(plan.outputs[1].1, script_of(&b));
    assert_eq!(plan.outputs[2].1, script_of(&w.address));
    // Change of at most the dust limit is left to the miners.
    let plan2 = plan_batch_withdrawal(&w, &vec![utxo(1, 6590)], &vec![target(&a, 5000)]).ok().unwrap();
    let values2: Vec<u64> = plan2.outputs.iter().map(|o| o.0).collect();
    assert_eq!(values2, vec![5000]);
}

#[test]
fn withdrawal_transaction_is_signed() {
    let w = testnet_wallet(1);
    let a = testnet_address(2);
    let tx = create_batch_withdrawal_tx(&w, vec![utxo(1, 3000), utxo(2, 5000)], vec![target(&a, 2000)]).ok().unwrap();
    // need = 2000 + 1050: both outputs are spent.
    assert_eq!(tx.inputs.len(), 2);
    assert_eq!(tx.version, 2);
    assert_eq!(tx.lock_time, 0);
    assert_eq!(tx.outputs.len(), 2);
    assert_eq!(tx.outputs[0].0, 2000);
    assert_eq!(tx.outputs[1].0, 8000 - 3050);
    // Outpoints: the ids' bytes (as `Txid` holds them) and the indices.
    let id1: bitcoin::Txid = "01".repeat(32).parse().unwrap();
    assert_eq!(tx.inputs[0].0, bitcoin::hashes::Hash::to_byte_array(id1));
    assert_eq!(tx.inputs[1].1, 2);
    assert_signed_by(&tx, &w);
    let bad_key = LocalWallet { secret_wif: "bad".to_string(), address: w.address.clone() };
    assert!(matches!(
        create_batch_withdrawal_tx(&bad_key, vec![utxo(1, 3000)], vec![target(&a, 1000)]),
        Err(WithdrawError::Key(_))
    ));
}

// ── Settlement ───────────────────────────────────────────────────────────────

#[test]
fn settlement_anchors_root_and_returns_change() {
    let w = testnet_wallet(1);
    let root = "ab".repeat(32);
    let plan = plan_settlement(&w, &vec![utxo(1, 600), utxo(2, 5000), utxo(3, 7)], &root).ok().unwrap();
    assert_eq!(plan.inputs.len(), 2);
    let values: Vec<u64> = plan.outputs.iter().map(|o| o.0).collect();
    assert_eq!(values, vec![0, 4600]);
    let data = &plan.outputs[0].1;
    assert_eq!(data.len(), 34);
    assert_eq!(data[0], 0x6a);
    assert_eq!(data[1], 0x20);
    assert_eq!(&data[2..], &[0xabu8; 32][..]);
    assert_eq!(Some(plan.outputs[1].1.clone()), w.get_address_obj());
    // Too little to return anything: only the anchor.
    let plan2 = plan_settlement(&w, &vec![utxo(1, 1500)], &root).ok().unwrap();
    assert_eq!(plan2.outputs.len(), 1);
    let tx = create_settlement_tx(&w, vec![utxo(1, 600), utxo(2, 5000)], root).ok().unwrap();
    assert_eq!(tx.inputs.len(), 2);
    assert_eq!(tx.outputs[0].1, plan.outputs[0].1);
    assert_signed_by(&tx, &w);
    // The root must be 64 hex digits.
    assert!(matches!(plan_settlement(&w, &vec![utxo(1, 5000)], "ab"), Err(WithdrawError::InvalidRoot)));
    assert!(matches!(plan_settlement(&w, &vec![utxo(1, 5000)], &"zz".repeat(32)), Err(WithdrawError::InvalidRoot)));
    let upper = "AB".repeat(32);
    let p3 = plan_settlement(&w, &vec![utxo(1, 5000)], &upper).ok().unwrap();
    assert_eq!(&p3.outputs[0].1[2..], &[0xabu8; 32][..]);
    let bad_key = LocalWallet { secret_wif: "bad".to_string(), address: w.address.clone() };
    assert!(matches!(create_settlement_tx(&bad_key, vec![utxo(1, 5000)], "cd".repeat(32)), Err(WithdrawError::Key(_))));
}

// ── SPV ──────────────────────────────────────────────────────────────────────

#[test]
fn spv_checks() {
    let spv = SpvVerifier::new();
    let txid: bitcoin::Txid = "11".repeat(32).parse().unwrap();
    assert!(spv.verify_merkle_proof(txid, "root".to_string(), "00ff"));
    assert!(!spv.verify_merkle_proof(txid, "root".to_string(), "0g"));
    let genesis = bitcoin::blockdata::constants::genesis_block(bitcoin::Network::Bitcoin);
    let mut raw = Vec::new();
    genesis.consensus_encode(&mut raw).unwrap();
    let hexed: String = raw.iter().map(|b| format!("{:02x}", b)).collect();
    assert!(spv.validate_header(&hexed));
    assert!(!spv.validate_header("00"));
    assert!(!spv.validate_header("zz"));
}

// ── VM ───────────────────────────────────────────────────────────────────────

/// A WASM module exporting `process(i64) -> i64` that returns `b + b / 20`.
fn yield_module() -> Vec<u8> {
    vec![
        0x00, 0x61, 0x73, 0x6d, 0x01, 0x00, 0x00, 0x00, // header
        0x01, 0x06, 0x01, 0x60, 0x01, 0x7e, 0x01, 0x7e, // type (i64) -> i64
        0x03, 0x02, 0x01, 0x00, // one function
        0x07, 0x0b, 0x01, 0x07, b'p', b'r', b'o', b'c', b'e', b's', b's', 0x00, 0x00, // export
        0x0a, 0x0c, 0x01, 0x0a, 0x00, 0x20, 0x00, 0x20, 0x00, 0x42, 0x14, 0x7f, 0x7c, 0x0b, // code
    ]
}

fn account(lamports: u64) -> Account {
    Account { lamports, data: vec![1, 2], owner: Pubkey([0; 32]), executable: false, rent_epoch: 0 }
}

#[test]
fn vm_runs_yield_contract() {
    let mut accounts = vec![(Pubkey([1; 32]), account(1000)), (Pubkey([2; 32]), account(5))];
    let res = LumenVM::execute(&Pubkey([0; 32]), &mut accounts, &yield_module(), 1_000_000).ok().unwrap();
    assert_eq!(accounts[0].1.lamports, 1050);
    assert_eq!(accounts[1].1.lamports, 5);
    assert_eq!(res.new_accounts[0].1.lamports, 1050);
    assert_eq!(res.new_accounts[0].1.data, vec![1, 2]);
    assert_eq!(
        res.logs,
        vec![
            "🚀 Lumen WASM Runtime Booting...".to_string(),
            "📜 Target Program: 11111111111111111111111111111111".to_string(),
            "▶️ Calling 'process' with balance: 1000".to_string(),
            "✅ Contract returned new balance: 1050".to_string(),
            "🏁 WASM Execution finished".to_string(),
        ]
    );
}

#[test]
fn vm_errors() {
    let mut accounts = vec![(Pubkey([1; 32]), account(1))];
    assert!(matches!(LumenVM::execute(&Pubkey([0; 32]), &mut accounts, &[], 0), Err(VmError::EmptyBytecode)));
    assert!(matches!(LumenVM::execute(&Pubkey([0; 32]), &mut accounts, &[1, 2, 3], 0), Err(VmError::Load(_))));
    let empty_module = [0x00, 0x61, 0x73, 0x6d, 0x01, 0x00, 0x00, 0x00];
    assert!(matches!(LumenVM::execute(&Pubkey([0; 32]), &mut accounts, &empty_module, 0), Err(VmError::MissingProcess)));
    assert_eq!(accounts[0].1.lamports, 1);
    let mut none: Vec<(Pubkey, Account)> = vec![];
    assert!(matches!(LumenVM::execute(&Pubkey([0; 32]), &mut none, &yield_module(), 1000), Err(VmError::NoAccount)));
    // A module that does not load is refused before the accounts are looked at.
    assert!(matches!(LumenVM::execute(&Pubkey([0; 32]), &mut none, &[1, 2, 3], 1000), Err(VmError::Load(_))));
    assert!(matches!(LumenVM::execute(&Pubkey([0; 32]), &mut none, &empty_module, 1000), Err(VmError::MissingProcess)));
}

#[test]
fn finishing_a_run_applies_its_result() {
    let mut accounts = vec![(Pubkey([1; 32]), account(7)), (Pubkey([2; 32]), account(5))];
    let res = finish_run(&Pubkey([0; 32]), &mut accounts, Some(-1));
    assert_eq!(accounts[0].1.lamports, u64::MAX);
    assert_eq!(res.new_accounts[1].1.lamports, 5);
    assert_eq!(res.logs[2], "▶️ Calling 'process' with balance: 7");
    assert_eq!(res.logs[3], "✅ Contract returned new balance: -1");
    let res2 = finish_run(&Pubkey([0; 32]), &mut accounts, None);
    assert_eq!(accounts[0].1.lamports, u64::MAX);
    assert_eq!(res2.logs.len(), 4);
}

#[test]
fn vm_runs_are_bounded_by_gas() {
    // `process` loops forever: the gas runs out and the run traps.
    let mut looping = yield_module()[..33].to_vec();
    looping.extend_from_slice(&[0x0a, 0x0a, 0x01, 0x08, 0x00, 0x03, 0x40, 0x0c, 0x00, 0x0b, 0x00, 0x0b]);
    let mut accounts = vec![(Pubkey([1; 32]), account(1000))];
    assert!(matches!(LumenVM::execute(&Pubkey([0; 32]), &mut accounts, &looping, 10_000), Err(VmError::Trap(_))));
    assert_eq!(accounts[0].1.lamports, 1000);
    // Without gas even the yield contract cannot run.
    assert!(matches!(LumenVM::execute(&Pubkey([0; 32]), &mut accounts, &yield_module(), 0), Err(VmError::Trap(_))));
}

#[test]
fn yield_adds_five_percent() {
    assert_eq!(process(100), 105);
    assert_eq!(process(19), 19);
    assert_eq!(process(-100), -105);
    assert_eq!(process(0), 0);
}

// ── Webhooks ─────────────────────────────────────────────────────────────────

#[test]
fn webhook_retries_twice_then_gives_up() {
    assert_eq!(delivery_step(1, false), DeliveryStep::RetryAfter(2));
    assert_eq!(delivery_step(2, false), DeliveryStep::RetryAfter(4));
    assert_eq!(delivery_step(3, false), DeliveryStep::GiveUp);
    assert_eq!(delivery_step(2, true), DeliveryStep::Delivered);
    assert_eq!(api_version(), "2024-01");
    assert_eq!(payment_received_event(), "payment.received");
}

#[test]
fn webhook_signature_header() {
    assert_eq!(signature_header(&None, "{}"), None);
    assert_eq!(
        signature_header(&Some("key".to_string()), "The quick brown fox jumps over the lazy dog"),
        Some("sha256=f7bc83f430538424b13298e6aa6fb143ef4d59a14946175997479dbc2d1a3cd8".to_string())
    );
}

// ── Bridge ───────────────────────────────────────────────────────────────────

fn wallet_tx(id: &str, label: Option<&str>) -> WalletTx {
    WalletTx {
        txid: id.to_string(),
        is_receive: true,
        amount_positive: true,
        confirmations: 1,
        has_blockhash: true,
        label: label.map(|l| l.to_string()),
    }
}

#[test]
fn deposits_credit_label_or_default_once() {
    assert_eq!(deposit_address(&Some("0xabc".to_string())), "0xabc");
    assert_eq!(deposit_address(&Some("alice".to_string())), "0x107cb97206f84fa3");
    assert_eq!(deposit_address(&None), "0x107cb97206f84fa3");
    let mut st = AppState::new();
    let t = wallet_tx("btc1", Some("0xfeed"));
    assert!(is_deposit_candidate(&st, &t));
    assert_eq!(credit_deposit(&mut st, &t, 1500), "0xfeed");
    assert_eq!(st.get_balance("0xfeed"), 1500);
    assert_eq!(st.deposits.len(), 1);
    assert!(!is_deposit_candidate(&st, &t));
    let mut unconfirmed = wallet_tx("btc2", None);
    unconfirmed.confirmations = 0;
    assert!(!is_deposit_candidate(&st, &unconfirmed));
}

// ── Small helpers ────────────────────────────────────────────────────────────

#[test]
fn client_instructions_and_addresses() {
    assert_eq!(mint_instruction(50, "0xabc"), "Mint 50 0xabc");
    assert_eq!(transfer_instruction(7, "0xdef"), "Transfer 7 0xdef");
    assert_eq!(wallet_address("123e4567-e89b-12d3-a456-426614174000"), "0x123e4567e89b12d3");
    assert_eq!(utxo_url("tb1qx"), "https://mempool.space/testnet/api/address/tb1qx/utxo");
    assert_eq!(tx_url(), "https://mempool.space/testnet/api/tx");
    assert_eq!(network_for("mainnet"), NetworkKind::Bitcoin);
    assert_eq!(network_for("bitcoin"), NetworkKind::Bitcoin);
    assert_eq!(network_for("testnet"), NetworkKind::Testnet);
    assert_eq!(network_for("regtest"), NetworkKind::Signet);
    assert_eq!(default_esplora(NetworkKind::Signet), "https://mutinynet.com/api");
    assert_eq!(default_esplora(NetworkKind::Bitcoin), "https://blockstream.info/api");
    assert!(init_mempool().queue.is_empty());
}
