//! The Lumen VM: runs a WASM contract's `process` export on the balance of
//! the first account it is given.
//!
//! Accounts and their keys are held in the library's own types, with the
//! fields that a Solana account has.

use vstd::prelude::*;
use crate::base58::{base58_spec, to_base58};
use crate::text::{owned, push_str, i64_to_string, dec_string_i};
use wasmi::{Config, Engine, Module, Store, Linker, Value};
use crate::vm::VmError::{Load, MissingProcess, Trap};

verus! {

// ── Accounts ──────────────────────────────────────────────────────────────────

/// An account's 32-byte public key.
#[derive(Clone, Copy, Debug)]
pub struct Pubkey(pub [u8; 32]);

/// An account: its balance in lamports, its data, its owning program,
/// whether it is executable, and its rent epoch.
#[derive(Clone, Debug)]
pub struct Account {
    pub lamports: u64,
    pub data: Vec<u8>,
    pub owner: Pubkey,
    pub executable: bool,
    pub rent_epoch: u64,
}

/// What an account holds, as plain values.
pub struct AccountView {
    pub lamports: u64,
    pub data: Seq<u8>,
    pub owner: Pubkey,
    pub executable: bool,
    pub rent_epoch: u64,
}

impl View for Account {
    type V = AccountView;

    open spec fn view(&self) -> AccountView {
        AccountView {
            lamports: self.lamports,
            data: self.data@,
            owner: self.owner,
            executable: self.executable,
            rent_epoch: self.rent_epoch,
        }
    }
}

/// The accounts, each by its view.
pub open spec fn accounts_view(s: Seq<(Pubkey, Account)>) -> Seq<(Pubkey, AccountView)> {
    s.map_values(|e: (Pubkey, Account)| (e.0, e.1@))
}

/// A copy of an account.
pub fn copy_account(a: &Account) -> (r: Account)
    ensures
        r@ == a@,
{
    Account {
        lamports: a.lamports,
        data: a.data.clone(),
        owner: a.owner,
        executable: a.executable,
        rent_epoch: a.rent_epoch,
    }
}

/// A copy of the accounts.
pub fn copy_accounts(v: &Vec<(Pubkey, Account)>) -> (r: Vec<(Pubkey, Account)>)
    ensures
        accounts_view(r@) == accounts_view(v@),
{
    let mut out: Vec<(Pubkey, Account)> = Vec::new();
    let mut i: usize = 0;
    while i < v.len()
        invariant
            0 <= i <= v@.len(),
            accounts_view(out@) == accounts_view(v@.take(i as int)),
        decreases v@.len() - i,
    {
        let a = copy_account(&v[i].1);
        let ghost before = out@;
        out.push((v[i].0, a));
        proof {
            assert(accounts_view(out@) =~= accounts_view(before).push((v@[i as int].0, v@[i as int].1@)));
            assert(accounts_view(v@.take(i + 1)) =~= accounts_view(v@.take(i as int)).push(
                (v@[i as int].0, v@[i as int].1@),
            ));
        }
        i = i + 1;
    }
    proof {
        assert(v@.take(v@.len() as int) =~= v@);
    }
    out
}

/// A key as text: its base58 encoding.
pub open spec fn pubkey_text(k: Pubkey) -> Seq<char> {
    base58_spec(k.0@)
}

// ── Execution ────────────────────────────────────────────────────────────────

/// What a run gives back: all accounts after the run, and its log.
pub struct ExecutionResult {
    pub new_accounts: Vec<(Pubkey, Account)>,
    pub logs: Vec<String>,
}

/// Why a run failed.
#[derive(Clone, Debug)]
pub enum VmError {
    /// "Bytecode is empty"
    EmptyBytecode,
    /// The bytecode did not compile, or the module could not be
    /// instantiated or started (wasmi's message).
    Load(String),
    /// "Contract missing 'process' export"
    MissingProcess,
    /// The contract trapped or ran out of fuel (wasmi's message).
    Trap(String),
    /// There is no account whose balance the contract could take.
    NoAccount,
}

#[verifier::external_type_specification]
#[verifier::external_body]
#[verifier::reject_recursive_types(T)]
pub struct ExStore<T>(wasmi::Store<T>);

#[verifier::external_type_specification]
#[verifier::external_body]
pub struct ExFunc(wasmi::Func);

/// Loads the module with wasmi (0.31): `Config::consume_fuel`,
/// `Engine::new`, `Module::new`, `Store::new` and `Store::add_fuel` (which
/// cannot fail with metering on), `Linker::instantiate` (no imports) and
/// `InstancePre::start`, then `Instance::get_func` for `process`. Gives the
/// store, holding `fuel` units of fuel less what the start function used,
/// and the function. Claimed: an error is `Load` (compiling, instantiating
/// or starting failed, with wasmi's message) or `MissingProcess`. Which
/// modules load is not claimed.
#[verifier::external_body]
fn load_process(code: &[u8], fuel: u64) -> (r: Result<(Store<()>, wasmi::Func), VmError>)
    ensures
        r matches Err(e) ==> (e is Load || e is MissingProcess),
{
    let engine = Engine::new(Config::default().consume_fuel(true));
    let mut store = Store::new(&engine, ());
    store.add_fuel(fuel).ok();
    let load = Module::new(&engine, code).and_then(|m| Linker::new(&engine).instantiate(&mut store, &m)?.start(&mut store));
    let process = load.map_err(|e| Load(e.to_string()))?.get_func(&store, "process").ok_or(MissingProcess)?;
    Ok((store, process))
}

/// Calls `Func::call` with one `i64` argument and one result slot that
/// starts as `I64(0)`, and reads the slot with `Value::i64`: `None` where
/// the function left a value of another type. The store is one that
/// `load_process` made, with fuel metering on, so the call ends (a run out
/// of fuel traps). Claimed: an error is `Trap`, with wasmi's message. The
/// value is not claimed: wasmi computes floats with the machine's own
/// arithmetic, so the bits of a NaN, and a result made from them, may
/// differ between machines.
#[verifier::external_body]
fn call_process(store: &mut Store<()>, func: &wasmi::Func, arg: i64) -> (r: Result<Option<i64>, VmError>)
    ensures
        r matches Err(e) ==> e is Trap,
{
    let mut out = [Value::I64(0)];
    func.call(store, &[Value::I64(arg)], &mut out).map_err(|e| Trap(e.to_string()))?;
    Ok(out[0].i64())
}

/// The log of a successful run on `program_id`, called with `balance`,
/// the contract having returned `result` (where it returned an `i64`).
pub open spec fn run_log(program_id: Pubkey, balance: i64, result: Option<i64>) -> Seq<Seq<char>> {
    let head = seq![
        "🚀 Lumen WASM Runtime Booting..."@,
        "📜 Target Program: "@ + pubkey_text(program_id),
        "▶️ Calling 'process' with balance: "@ + dec_string_i(balance as int),
    ];
    let mid = match result {
        Some(v) => seq!["✅ Contract returned new balance: "@ + dec_string_i(v as int)],
        None => Seq::empty(),
    };
    head + mid + seq!["🏁 WASM Execution finished"@]
}

/// The accounts after a run that returned `result`: the first account's
/// balance becomes the result (as `u64`, two's complement), the rest stay.
pub open spec fn run_accounts(accounts: Seq<(Pubkey, Account)>, result: Option<i64>) -> Seq<
    (Pubkey, Account),
> {
    match result {
        Some(v) => accounts.update(
            0,
            (accounts[0].0, Account { lamports: v as u64, ..accounts[0].1 }),
        ),
        None => accounts,
    }
}

/// The end of a run whose `process` call gave `result` on the first
/// account's balance: that account takes the result as its balance (where
/// the call returned an `i64`), and the run's log and the accounts are
/// given back.
pub fn finish_run(program_id: &Pubkey, accounts: &mut Vec<(Pubkey, Account)>, result: Option<i64>) -> (r:
    ExecutionResult)
    requires
        old(accounts)@.len() > 0,
    ensures
        final(accounts)@ == run_accounts(old(accounts)@, result),
        accounts_view(r.new_accounts@) == accounts_view(final(accounts)@),
        r.logs@.map_values(|l: String| l@) == run_log(
            *program_id,
            old(accounts)@[0].1.lamports as i64,
            result,
        ),
{
    let mut logs: Vec<String> = Vec::new();
    logs.push(owned("🚀 Lumen WASM Runtime Booting..."));
    let mut t = owned("📜 Target Program: ");
    let k = to_base58(&program_id.0);
    push_str(&mut t, k.as_str());
    logs.push(t);
    let current_balance: i64 = accounts[0].1.lamports as i64;
    let mut c = owned("▶️ Calling 'process' with balance: ");
    let d = i64_to_string(current_balance);
    push_str(&mut c, d.as_str());
    logs.push(c);
    match result {
        Some(new_balance) => {
            let (key, mut acct) = accounts.remove(0);
            acct.lamports = new_balance as u64;
            accounts.insert(0, (key, acct));
            let mut m = owned("✅ Contract returned new balance: ");
            let d = i64_to_string(new_balance);
            push_str(&mut m, d.as_str());
            logs.push(m);
        },
        None => {},
    }
    logs.push(owned("🏁 WASM Execution finished"));
    proof {
        assert(logs@.map_values(|l: String| l@) =~= run_log(
            *program_id,
            old(accounts)@[0].1.lamports as i64,
            result,
        ));
        assert(run_accounts(old(accounts)@, result) =~= accounts@);
    }
    let new_accounts = copy_accounts(accounts);
    ExecutionResult { new_accounts, logs }
}

pub struct LumenVM;

impl LumenVM {
    /// Runs `bytecode`'s `process` export, metered with `gas_limit` units of
    /// fuel, on the first account's balance (as `i64`, two's complement) and
    /// stores what it returns as that account's new balance. Empty bytecode
    /// is refused first; a module that does not load is refused before the
    /// accounts are looked at; then a run needs an account.
    pub fn execute(
        program_id: &Pubkey,
        accounts: &mut Vec<(Pubkey, Account)>,
        bytecode: &[u8],
        gas_limit: u64,
    ) -> (r: Result<ExecutionResult, VmError>)
        ensures
            r matches Err(VmError::EmptyBytecode) <==> bytecode@.len() == 0,
            r matches Err(VmError::NoAccount) ==> old(accounts)@.len() == 0,
            (bytecode@.len() > 0 && old(accounts)@.len() == 0) ==> r is Err,
            r is Err ==> final(accounts)@ == old(accounts)@,
            r matches Ok(res) ==> old(accounts)@.len() > 0 && exists|result: Option<i64>| {
                &&& #[trigger] run_accounts(old(accounts)@, result) == final(accounts)@
                &&& accounts_view(res.new_accounts@) == accounts_view(final(accounts)@)
                &&& res.logs@.map_values(|l: String| l@) == run_log(
                    *program_id,
                    old(accounts)@[0].1.lamports as i64,
                    result,
                )
            },
    {
        if bytecode.len() == 0 {
            return Err(VmError::EmptyBytecode);
        }
        let (mut store, process) = match load_process(bytecode, gas_limit) {
            Ok(x) => x,
            Err(e) => return Err(e),
        };
        if accounts.len() == 0 {
            return Err(VmError::NoAccount);
        }
        let current_balance: i64 = accounts[0].1.lamports as i64;
        let result = match call_process(&mut store, &process, current_balance) {
            Ok(v) => v,
            Err(e) => return Err(e),
        };
        Ok(finish_run(program_id, accounts, result))
    }
}

// ── The yield contract ────────────────────────────────────────────────────────

/// `b / 20` rounded toward zero, as Rust divides.
pub open spec fn div20(b: int) -> int {
    if b >= 0 {
        b / 20
    } else {
        -((-b) / 20)
    }
}

/// The yield contract's `process`: the balance plus a 5% reward (the
/// balance divided by 20, rounded toward zero).
pub open spec fn process_spec(current_balance: i64) -> int {
    current_balance + div20(current_balance as int)
}

/// Adds a 5% yield reward to a balance.
pub fn process(current_balance: i64) -> (r: i64)
    requires
        i64::MIN <= process_spec(current_balance) <= i64::MAX,
    ensures
        r == process_spec(current_balance),
{
    let reward = current_balance / 20;
    current_balance + reward
}

/// The reward never lowers a non-negative balance and adds at most 5%.
pub proof fn law_yield_grows(b: i64)
    requires
        0 <= b,
    ensures
        b <= process_spec(b),
        20 * (process_spec(b) - b) <= b,
{
}

} // verus!
