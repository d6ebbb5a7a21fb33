//! Batched withdrawals: one Bitcoin transaction paying many users from the
//! wallet's unspent outputs.

use vstd::prelude::*;
use crate::btc_api::Utxo;
use crate::btc_tx::{select_inputs, unsigned_tx, sign_inputs, utxo_sum, inputs_used, first_bad_txid, PlainTx,
    outpoints_view, outpoints_spec, outputs_view, unsigned_spec, signed_spec, tx_view};
use crate::wallet::{LocalWallet, AddressError, address_parses, address_on_testnet, address_script_spec, wif_key,
    testnet_address_script, parse_wif};
use crate::text::{owned, push_str, u64_to_string, dec_string};

verus! {

/// Outputs below this many satoshis are dust and are not paid.
pub const DUST_LIMIT_SATS: u64 = 546;

/// The base fee of a withdrawal transaction, in satoshis.
pub const FEE_SATS: u64 = 1000;

/// One user to pay.
#[derive(Clone, Debug)]
pub struct BatchTarget {
    pub address: String,
    pub amount: u64,
}

/// Why a transaction could not be built.
#[derive(Clone, Debug)]
pub enum WithdrawError {
    /// "No withdrawal targets provided"
    NoTargets,
    /// The wallet's own address does not parse.
    WalletAddress,
    /// A recipient's address is refused.
    InvalidAddress(AddressError),
    /// "All targets were below dust limit"
    AllDust,
    /// An unspent output's transaction id does not parse (its message).
    InvalidTxid(String),
    /// The spent outputs do not cover the payments and the fee.
    InsufficientFunds { need: u64, have: u64 },
    /// The wallet's key does not parse (its message).
    Key(String),
    /// The state root to anchor is not 64 hex digits.
    InvalidRoot,
}

impl WithdrawError {
    /// The error's message.
    pub fn message(&self) -> (r: String)
        ensures
            self matches WithdrawError::NoTargets ==> r@ == "No withdrawal targets provided"@,
            self matches WithdrawError::AllDust ==> r@ == "All targets were below dust limit"@,
            self matches WithdrawError::InvalidAddress(AddressError::WrongNetwork) ==> r@
                == "Invalid Testnet address"@,
            self matches WithdrawError::InsufficientFunds { need, have } ==> r@
                == "Insufficient funds: Need "@ + dec_string(need as nat) + ", have "@
                + dec_string(have as nat),
    {
        match self {
            WithdrawError::NoTargets => owned("No withdrawal targets provided"),
            WithdrawError::WalletAddress => owned("Invalid wallet address"),
            WithdrawError::InvalidAddress(AddressError::Parse(m)) => m.clone(),
            WithdrawError::InvalidAddress(AddressError::WrongNetwork) => owned(
                "Invalid Testnet address",
            ),
            WithdrawError::AllDust => owned("All targets were below dust limit"),
            WithdrawError::InvalidTxid(m) => m.clone(),
            WithdrawError::InsufficientFunds { need, have } => {
                let mut s = owned("Insufficient funds: Need ");
                let n = u64_to_string(*need);
                push_str(&mut s, n.as_str());
                push_str(&mut s, ", have ");
                let h = u64_to_string(*have);
                push_str(&mut s, h.as_str());
                s
            },
            WithdrawError::Key(m) => m.clone(),
            WithdrawError::InvalidRoot => owned("State root is not 64 hex digits"),
        }
    }
}

/// The targets that are paid: those of at least the dust limit, in order.
pub open spec fn paying(ts: Seq<BatchTarget>) -> Seq<BatchTarget>
    decreases ts.len(),
{
    if ts.len() == 0 {
        Seq::empty()
    } else {
        let r = paying(ts.drop_last());
        if ts.last().amount >= DUST_LIMIT_SATS {
            r.push(ts.last())
        } else {
            r
        }
    }
}

/// Sum of the amounts.
pub open spec fn target_sum(ts: Seq<BatchTarget>) -> int
    decreases ts.len(),
{
    if ts.len() == 0 {
        0
    } else {
        target_sum(ts.drop_last()) + ts.last().amount
    }
}

/// Position of the first target whose address is not a testnet address, or
/// -1.
pub open spec fn first_bad_address(ps: Seq<BatchTarget>) -> int
    decreases ps.len(),
{
    if ps.len() == 0 {
        -1
    } else if !address_on_testnet(ps[0].address@) {
        0
    } else {
        let r = first_bad_address(ps.drop_first());
        if r < 0 {
            -1
        } else {
            r + 1
        }
    }
}

/// What the inputs must cover: the payments and the fee (the base fee and
/// 50 satoshis per payment).
pub open spec fn withdrawal_need(ts: Seq<BatchTarget>) -> int {
    target_sum(paying(ts)) + FEE_SATS + 50 * paying(ts).len()
}

/// What is left for the wallet: the inputs spent less the payments and the
/// fee.
pub open spec fn withdrawal_change(us: Seq<Utxo>, ts: Seq<BatchTarget>) -> int {
    utxo_sum(us.take(inputs_used(us, withdrawal_need(ts)))) - withdrawal_need(ts)
}

/// The values of the outputs: each payment, then the change where it is
/// above the dust limit.
pub open spec fn withdrawal_output_values(us: Seq<Utxo>, ts: Seq<BatchTarget>) -> Seq<u64> {
    let pays = paying(ts).map_values(|t: BatchTarget| t.amount);
    if withdrawal_change(us, ts) > DUST_LIMIT_SATS {
        pays.push(withdrawal_change(us, ts) as u64)
    } else {
        pays
    }
}

/// The sums stay within `u64`: the values of the outputs spent, and the
/// payments with the fee.
pub open spec fn withdrawal_fits(us: Seq<Utxo>, ts: Seq<BatchTarget>) -> bool {
    &&& utxo_sum(us.take(inputs_used(us, withdrawal_need(ts)))) <= u64::MAX
    &&& withdrawal_need(ts) <= u64::MAX
}

/// The outcome of planning, as far as it is decided before any key is used.
pub open spec fn plan_outcome_ok(
    wallet_address: Seq<char>,
    us: Seq<Utxo>,
    ts: Seq<BatchTarget>,
    r: Result<WithdrawalPlan, WithdrawError>,
) -> bool {
    let ps = paying(ts);
    let need = withdrawal_need(ts);
    let k = inputs_used(us, need);
    if ts.len() == 0 {
        r matches Err(WithdrawError::NoTargets)
    } else if !address_parses(wallet_address) {
        r matches Err(WithdrawError::WalletAddress)
    } else if first_bad_address(ps) >= 0 {
        r matches Err(WithdrawError::InvalidAddress(e)) && (e is Parse <==> !address_parses(
            ps[first_bad_address(ps)].address@,
        ))
    } else if ps.len() == 0 {
        r matches Err(WithdrawError::AllDust)
    } else if first_bad_txid(us.take(k)) >= 0 {
        r matches Err(WithdrawError::InvalidTxid(_))
    } else if utxo_sum(us.take(k)) < need {
        r matches Err(WithdrawError::InsufficientFunds { need: n, have: h }) && n == need && h
            == utxo_sum(us)
    } else {
        r matches Ok(p) && outpoints_view(p.inputs@) == outpoints_spec(us.take(k)) && p.outputs@.map_values(
            |o: (u64, Vec<u8>)| o.0,
        ) == withdrawal_output_values(us, ts) && (forall|j: int|
            0 <= j < ps.len() ==> address_script_spec(ps[j].address@) == Some(
                (#[trigger] p.outputs@[j]).1@,
            )) && (withdrawal_change(us, ts) > DUST_LIMIT_SATS ==> address_script_spec(
            wallet_address,
        ) == Some(p.outputs@.last().1@))
    }
}

/// The transaction to sign: the outpoints spent (transaction id bytes and
/// output index) and the outputs (value and locking script).
pub struct WithdrawalPlan {
    pub inputs: Vec<([u8; 32], u32)>,
    pub outputs: Vec<(u64, Vec<u8>)>,
}

proof fn lemma_paying_prefix(ts: Seq<BatchTarget>, m: int)
    requires
        0 <= m <= ts.len(),
    ensures
        paying(ts.take(m)).len() <= paying(ts).len(),
        paying(ts).take(paying(ts.take(m)).len() as int) == paying(ts.take(m)),
    decreases ts.len() - m,
{
    if m < ts.len() {
        lemma_paying_prefix(ts, m + 1);
        assert(ts.take(m + 1).drop_last() =~= ts.take(m));
        let a = paying(ts.take(m));
        let b = paying(ts.take(m + 1));
        assert(paying(ts).take(a.len() as int) =~= b.take(a.len() as int));
        assert(b.take(a.len() as int) =~= a);
    } else {
        assert(ts.take(m) =~= ts);
    }
}

proof fn lemma_first_bad_address(ps: Seq<BatchTarget>, i: int)
    requires
        0 <= i <= ps.len(),
        forall|j: int| 0 <= j < i ==> address_on_testnet(#[trigger] ps[j].address@),
    ensures
        i < ps.len() && !address_on_testnet(ps[i].address@) ==> first_bad_address(ps) == i,
        i == ps.len() ==> first_bad_address(ps) == -1,
    decreases i,
{
    if i > 0 {
        let t = ps.drop_first();
        assert forall|j: int| 0 <= j < i - 1 implies address_on_testnet(#[trigger] t[j].address@) by {
            assert(t[j] == ps[j + 1]);
        }
        lemma_first_bad_address(t, i - 1);
    }
}

proof fn lemma_target_sum_paying_mono(ts: Seq<BatchTarget>, m: int)
    requires
        0 <= m <= ts.len(),
    ensures
        target_sum(paying(ts.take(m))) <= target_sum(paying(ts)),
    decreases ts.len() - m,
{
    if m < ts.len() {
        lemma_target_sum_paying_mono(ts, m + 1);
        let t = ts.take(m + 1);
        assert(t.drop_last() =~= ts.take(m));
        let a = paying(ts.take(m));
        if t.last().amount >= DUST_LIMIT_SATS {
            assert(paying(t) == a.push(t.last()));
            assert(a.push(t.last()).drop_last() =~= a);
        } else {
            assert(paying(t) == a);
        }
    } else {
        assert(ts.take(m) =~= ts);
    }
}

/// Plans a batched withdrawal: pays every target of at least the dust limit
/// (each address must be a testnet address), spends the wallet's outputs in
/// order until they cover the payments and the fee, and returns the rest
/// to the wallet where it is above the dust limit.
pub fn plan_batch_withdrawal(wallet: &LocalWallet, utxos: &Vec<Utxo>, targets: &Vec<BatchTarget>) -> (r:
    Result<WithdrawalPlan, WithdrawError>)
    requires
        withdrawal_fits(utxos@, targets@),
    ensures
        plan_outcome_ok(wallet.address@, utxos@, targets@, r),
{
    let ghost ts = targets@;
    let ghost us = utxos@;
    if targets.len() == 0 {
        return Err(WithdrawError::NoTargets);
    }
    let my_script = match wallet.get_address_obj() {
        Some(s) => s,
        None => return Err(WithdrawError::WalletAddress),
    };
    let mut outputs: Vec<(u64, Vec<u8>)> = Vec::new();
    let mut total_send: u64 = 0;
    let mut i: usize = 0;
    while i < targets.len()
        invariant
            ts == targets@,
            us == utxos@,
            ts.len() > 0,
            address_parses(wallet.address@),
            withdrawal_fits(us, ts),
            0 <= i <= ts.len(),
            outputs@.len() == paying(ts.take(i as int)).len(),
            total_send == target_sum(paying(ts.take(i as int))),
            forall|j: int|
                0 <= j < outputs@.len() ==> address_on_testnet(
                    #[trigger] paying(ts.take(i as int))[j].address@,
                ),
            outputs@.map_values(|o: (u64, Vec<u8>)| o.0) == paying(
                ts.take(i as int),
            ).map_values(|t: BatchTarget| t.amount),
            forall|j: int|
                0 <= j < outputs@.len() ==> address_script_spec(
                    paying(ts.take(i as int))[j].address@,
                ) == Some((#[trigger] outputs@[j]).1@),
            address_script_spec(wallet.address@) == Some(my_script@),
        decreases ts.len() - i,
    {
        proof {
            assert(ts.take(i + 1).drop_last() =~= ts.take(i as int));
            lemma_target_sum_paying_mono(ts, i + 1);
            lemma_paying_prefix(ts, i + 1);
        }
        let t = &targets[i];
        if t.amount >= DUST_LIMIT_SATS {
            let ghost a = paying(ts.take(i as int));
            proof {
                assert(paying(ts.take(i + 1)) == a.push(ts[i as int]));
                assert(a.push(ts[i as int]).drop_last() =~= a);
                assert(target_sum(a.push(ts[i as int])) == target_sum(a) + t.amount);
            }
            match testnet_address_script(t.address.as_str()) {
                Ok(script) => {
                    let ghost before = outputs@;
                    outputs.push((t.amount, script));
                    total_send = total_send + t.amount;
                    proof {
                        assert(outputs@ == before.push((t.amount, script)));
                        assert(outputs@.map_values(|o: (u64, Vec<u8>)| o.0) =~= before.map_values(
                            |o: (u64, Vec<u8>)| o.0,
                        ).push(t.amount));
                        assert(a.push(ts[i as int]).map_values(|t: BatchTarget| t.amount) =~= a.map_values(
                            |t: BatchTarget| t.amount,
                        ).push(t.amount));
                        let b = paying(ts.take(i + 1));
                        assert forall|j: int|
                            0 <= j < outputs@.len() implies address_on_testnet(
                            #[trigger] b[j].address@,
                        ) by {
                            if j < before.len() {
                                assert(b[j] == a[j]);
                            }
                        }
                        assert forall|j: int|
                            0 <= j < outputs@.len() implies address_script_spec(b[j].address@)
                            == Some((#[trigger] outputs@[j]).1@) by {
                            if j < before.len() {
                                assert(b[j] == a[j]);
                                assert(outputs@[j] == before[j]);
                            } else {
                                assert(b[j] == ts[i as int]);
                            }
                        }
                    }
                },
                Err(e) => {
                    proof {
                        let ps = paying(ts);
                        let a = paying(ts.take(i as int));
                        let b = paying(ts.take(i + 1));
                        assert(b == a.push(ts[i as int]));
                        assert forall|j: int| 0 <= j < a.len() implies address_on_testnet(
                            #[trigger] ps[j].address@,
                        ) by {
                            assert(ps[j] == b[j]);
                            assert(b[j] == a[j]);
                        }
                        assert(ps[a.len() as int] == b[a.len() as int]);
                        assert(b[a.len() as int] == ts[i as int]);
                        assert(!address_on_testnet(ts[i as int].address@));
                        lemma_first_bad_address(ps, a.len() as int);
                        assert(first_bad_address(ps) == a.len());
                        assert(e is Parse <==> !address_parses(ts[i as int].address@));
                        assert(address_parses(wallet.address@));
                    }
                    return Err(WithdrawError::InvalidAddress(e));
                },
            }
        } else {
            proof {
                assert(paying(ts.take(i + 1)) == paying(ts.take(i as int)));
            }
        }
        i = i + 1;
    }
    proof {
        assert(ts.take(i as int) =~= ts);
        lemma_first_bad_address(paying(ts), paying(ts).len() as int);
    }
    if outputs.len() == 0 {
        return Err(WithdrawError::AllDust);
    }
    let fee: u64 = FEE_SATS + (outputs.len() as u64) * 50;
    let need: u64 = total_send + fee;
    let (inputs, total_in) = match select_inputs(utxos, need) {
        Ok(x) => x,
        Err(m) => return Err(WithdrawError::InvalidTxid(m)),
    };
    if total_in < need {
        proof {
            crate::btc_tx::lemma_inputs_used_all(us, need as int);
        }
        return Err(WithdrawError::InsufficientFunds { need, have: total_in });
    }
    let change = total_in - need;
    let ghost before_change = outputs@;
    if change > DUST_LIMIT_SATS {
        outputs.push((change, my_script));
    }
    proof {
        assert forall|j: int| 0 <= j < paying(ts).len() implies address_script_spec(
            paying(ts)[j].address@,
        ) == Some((#[trigger] outputs@[j]).1@) by {
            assert(outputs@[j] == before_change[j]);
        }
        assert(outputs@.map_values(|o: (u64, Vec<u8>)| o.0) =~= withdrawal_output_values(
            us,
            ts,
        ));
    }
    Ok(WithdrawalPlan { inputs, outputs })
}

/// The signed transaction of a plan: the unsigned transaction of its
/// outpoints and outputs, every input signed for an output locked by
/// `prev` under the key (secret bytes, compression flag).
pub open spec fn signed_plan_spec(p: WithdrawalPlan, prev: Seq<u8>, key: (Seq<u8>, bool)) -> (
    i32,
    u32,
    Seq<(Seq<u8>, u32, Seq<u8>)>,
    Seq<(u64, Seq<u8>)>,
) {
    signed_spec(unsigned_spec(outpoints_view(p.inputs@), outputs_view(p.outputs@)), prev, key.0, key.1)
}

/// What a builder gives for a planning outcome: the plan's error; else the
/// key error where the wallet's WIF does not parse; else the plan's
/// transaction, signed with the wallet's key for its own address.
pub open spec fn built_from_plan(
    wallet: &LocalWallet,
    p: Result<WithdrawalPlan, WithdrawError>,
    r: Result<PlainTx, WithdrawError>,
) -> bool {
    match p {
        Err(e) => r == Err::<PlainTx, WithdrawError>(e),
        Ok(pl) => match wif_key(wallet.secret_wif@) {
            None => r matches Err(WithdrawError::Key(_)),
            Some(k) => r matches Ok(t) && tx_view(t) == signed_plan_spec(
                pl,
                address_script_spec(wallet.address@)->0,
                k,
            ),
        },
    }
}

/// Signs a plan with the wallet's key, every input spending an output of
/// the wallet's address.
pub(crate) fn sign_plan(wallet: &LocalWallet, p: WithdrawalPlan) -> (r: Result<PlainTx, WithdrawError>)
    requires
        address_parses(wallet.address@),
    ensures
        built_from_plan(wallet, Ok(p), r),
{
    let mut tx = unsigned_tx(p.inputs, p.outputs);
    let key = match parse_wif(wallet.secret_wif.as_str()) {
        Ok(k) => k,
        Err(m) => return Err(WithdrawError::Key(m)),
    };
    let my_script = match wallet.get_address_obj() {
        Some(s) => s,
        None => return Err(WithdrawError::WalletAddress),
    };
    proof {
        assert(wif_key(wallet.secret_wif@) == Some((key.0@, key.1)));
        assert(crate::btc_tx::wif_secret(key.0@));
    }
    sign_inputs(&mut tx, &my_script, key.0, key.1);
    Ok(tx)
}

/// Builds and signs a batched withdrawal as `plan_batch_withdrawal` plans
/// it, every input spending an output of the wallet's address under the
/// wallet's key.
pub fn create_batch_withdrawal_tx(wallet: &LocalWallet, utxos: Vec<Utxo>, targets: Vec<BatchTarget>) -> (r:
    Result<PlainTx, WithdrawError>)
    requires
        withdrawal_fits(utxos@, targets@),
    ensures
        exists|p: Result<WithdrawalPlan, WithdrawError>|
            #[trigger] plan_outcome_ok(wallet.address@, utxos@, targets@, p) && built_from_plan(
                wallet,
                p,
                r,
            ),
{
    let plan = plan_batch_withdrawal(wallet, &utxos, &targets);
    match plan {
        Err(e) => Err(e),
        Ok(p) => sign_plan(wallet, p),
    }
}

/// Sum of values.
pub open spec fn value_sum(v: Seq<u64>) -> int
    decreases v.len(),
{
    if v.len() == 0 {
        0
    } else {
        value_sum(v.drop_last()) + v.last()
    }
}

proof fn lemma_target_sum_nonneg(ts: Seq<BatchTarget>)
    ensures
        target_sum(ts) >= 0,
    decreases ts.len(),
{
    if ts.len() > 0 {
        lemma_target_sum_nonneg(ts.drop_last());
    }
}

proof fn lemma_value_sum_amounts(ts: Seq<BatchTarget>)
    ensures
        value_sum(ts.map_values(|t: BatchTarget| t.amount)) == target_sum(ts),
    decreases ts.len(),
{
    if ts.len() > 0 {
        lemma_value_sum_amounts(ts.drop_last());
        assert(ts.map_values(|t: BatchTarget| t.amount).drop_last() =~= ts.drop_last().map_values(
            |t: BatchTarget| t.amount,
        ));
    }
}

/// A funded withdrawal pays every target its amount and leaves the miners
/// exactly the fee, unless the change is dust, which is left to them too:
/// the outputs never exceed the inputs less the fee, and fall short of it by
/// no more than the dust limit.
pub proof fn law_withdrawal_value_balance(us: Seq<Utxo>, ts: Seq<BatchTarget>)
    requires
        withdrawal_fits(us, ts),
        utxo_sum(us.take(inputs_used(us, withdrawal_need(ts)))) >= withdrawal_need(ts),
    ensures
        ({
            let spent = utxo_sum(us.take(inputs_used(us, withdrawal_need(ts))));
            let fee = FEE_SATS + 50 * paying(ts).len();
            let out = value_sum(withdrawal_output_values(us, ts));
            &&& out + fee <= spent
            &&& spent - fee - out <= DUST_LIMIT_SATS
        }),
{
    let pays = paying(ts).map_values(|t: BatchTarget| t.amount);
    lemma_value_sum_amounts(paying(ts));
    let c = withdrawal_change(us, ts);
    lemma_target_sum_nonneg(paying(ts));
    let k = inputs_used(us, withdrawal_need(ts));
    if c > DUST_LIMIT_SATS {
        assert(c <= u64::MAX);
        let cu = c as u64;
        assert(cu as int == c);
        let pp = pays.push(cu);
        assert(pp.drop_last() =~= pays);
        assert(pp.last() == cu);
        assert(value_sum(pp) == value_sum(pays) + cu);
    }
}

} // verus!
