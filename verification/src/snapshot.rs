//! The human-readable balance snapshot of the ledger.

use vstd::prelude::*;
use crate::state::{AppState, AppInfo, WithdrawalRequest, WithdrawalStatus};
use crate::sorting::{insertion_sort, lemma_first_not_at};
use crate::text::{owned, push_str, u64_to_string, i64_to_string, dec_string, dec_string_i};

verus! {

// ── Joining lines ─────────────────────────────────────────────────────────────

/// The lines joined by `\n`.
pub open spec fn join_lines(lines: Seq<Seq<char>>) -> Seq<char>
    decreases lines.len(),
{
    if lines.len() == 0 {
        Seq::empty()
    } else if lines.len() == 1 {
        lines[0]
    } else {
        join_lines(lines.drop_last()) + "\n"@ + lines.last()
    }
}

/// The lines joined by `\n`, as `[String]::join` gives them.
pub fn join(lines: &Vec<String>) -> (r: String)
    ensures
        r@ == join_lines(lines@.map_values(|l: String| l@)),
{
    let ghost v = lines@.map_values(|l: String| l@);
    let mut out = String::new();
    let mut i: usize = 0;
    while i < lines.len()
        invariant
            0 <= i <= lines@.len(),
            v == lines@.map_values(|l: String| l@),
            out@ == join_lines(v.take(i as int)),
        decreases lines@.len() - i,
    {
        proof {
            assert(v.take(i + 1).drop_last() =~= v.take(i as int));
            assert(v.take(i + 1).last() == lines@[i as int]@);
        }
        if i > 0 {
            push_str(&mut out, "\n");
        } else {
            proof {
                assert(v.take(0).len() == 0);
                assert(out@ =~= Seq::<char>::empty());
                assert(v.take(1)[0] == lines@[0]@);
            }
        }
        push_str(&mut out, lines[i].as_str());
        proof {
            if i == 0 {
                assert(out@ =~= lines@[0]@);
            }
        }
        i = i + 1;
    }
    proof {
        assert(v.take(lines@.len() as int) =~= v);
    }
    out
}

// ── Lines ─────────────────────────────────────────────────────────────────────

/// "ADDRESS: BALANCE LSAT"
pub open spec fn balance_line(e: (Seq<char>, u64)) -> Seq<char> {
    e.0 + ": "@ + dec_string(e.1 as nat) + " LSAT"@
}

/// "ID | NAME | 1 LSAT = RATE TOKEN | owner: OWNER"
pub open spec fn app_line(a: AppInfo) -> Seq<char> {
    a.app_id@ + " | "@ + a.app_name@ + " | 1 LSAT = "@ + dec_string(a.rate_per_lsat as nat) + " "@
        + a.token_name@ + " | owner: "@ + a.owner@
}

/// "ID: AMOUNT LSAT → ADDRESS (deadline: DEADLINE)"
pub open spec fn withdrawal_line(w: WithdrawalRequest) -> Seq<char> {
    w.id@ + ": "@ + dec_string(w.amount as nat) + " LSAT → "@ + w.btc_address@ + " (deadline: "@
        + dec_string_i(w.challenge_deadline as int) + ")"@
}

/// Richest first: `a` may come before `b` when its balance is not smaller.
pub open spec fn richer_first() -> spec_fn((Seq<char>, u64), (Seq<char>, u64)) -> bool {
    |a: (Seq<char>, u64), b: (Seq<char>, u64)| a.1 >= b.1
}

/// The pending withdrawals, in stored order.
pub open spec fn pending_withdrawals(ws: Seq<(Seq<char>, WithdrawalRequest)>) -> Seq<WithdrawalRequest>
    decreases ws.len(),
{
    if ws.len() == 0 {
        Seq::empty()
    } else {
        let r = pending_withdrawals(ws.drop_last());
        if ws.last().1.status == WithdrawalStatus::Pending {
            r.push(ws.last().1)
        } else {
            r
        }
    }
}

/// The lines of the snapshot, taken at the time `generated`.
pub open spec fn snapshot_lines(st: &AppState, generated: Seq<char>) -> Seq<Seq<char>> {
    let head = seq![
        "# Lumen Network — Balance Snapshot"@,
        "# Generated:   "@ + generated,
        "# State Root:  "@ + st.latest_state_root@,
        "# Total Txs:   "@ + dec_string(st.total_transactions as nat),
        "# Accounts:    "@ + dec_string(st.balances@.len()),
        "# Apps:        "@ + dec_string(st.apps@.len()),
        Seq::<char>::empty(),
        "## LSAT Balances"@,
    ];
    let balances = insertion_sort(st.balances@, richer_first()).map_values(
        |e: (Seq<char>, u64)| balance_line(e),
    );
    let apps = if st.apps@.len() == 0 {
        Seq::<Seq<char>>::empty()
    } else {
        seq![Seq::<char>::empty(), "## Registered Apps"@] + st.apps@.map_values(
            |e: (Seq<char>, AppInfo)| app_line(e.1),
        )
    };
    let wds = if st.withdrawals@.len() == 0 {
        Seq::<Seq<char>>::empty()
    } else {
        seq![Seq::<char>::empty(), "## Pending Withdrawals"@] + pending_withdrawals(
            st.withdrawals@,
        ).map_values(|w: WithdrawalRequest| withdrawal_line(w))
    };
    head + balances + apps + wds
}

/// The balances, richest first (equal balances in stored order).
pub fn balances_richest_first(st: &AppState) -> (r: Vec<(String, u64)>)
    ensures
        r@.map_values(|e: (String, u64)| (e.0@, e.1)) == insertion_sort(st.balances@, richer_first()),
{
    let ghost le = richer_first();
    let ghost s = st.balances@;
    let mut out: Vec<(String, u64)> = Vec::new();
    let n = st.balances.len();
    let mut i: usize = 0;
    while i < n
        invariant
            0 <= i <= n,
            n == s.len(),
            s == st.balances@,
            le == richer_first(),
            out@.map_values(|e: (String, u64)| (e.0@, e.1)) == insertion_sort(s.take(i as int), le),
        decreases n - i,
    {
        let k = st.balances.key_at(i).clone();
        let b = *st.balances.value_at(i);
        let ghost x = (k@, b);
        proof {
            assert(x == s[i as int]);
            assert(s.take(i + 1).drop_last() =~= s.take(i as int));
            assert(s.take(i + 1).last() == x);
        }
        let ghost t = out@.map_values(|e: (String, u64)| (e.0@, e.1));
        let mut j: usize = 0;
        while j < out.len() && out[j].1 >= b
            invariant
                0 <= j <= out@.len(),
                t == out@.map_values(|e: (String, u64)| (e.0@, e.1)),
                le == richer_first(),
                x.1 == b,
                forall|m: int| 0 <= m < j ==> le(#[trigger] t[m], x),
            decreases out@.len() - j,
        {
            proof {
                assert(t[j as int].1 == out@[j as int].1);
                assert(le(t[j as int], x));
            }
            j = j + 1;
        }
        proof {
            lemma_first_not_at(t, x, le, j as int);
        }
        out.insert(j, (k, b));
        proof {
            assert(out@.map_values(|e: (String, u64)| (e.0@, e.1)) =~= t.insert(j as int, x));
        }
        i = i + 1;
    }
    proof {
        assert(s.take(n as int) =~= s);
    }
    out
}

fn balance_text(addr: &String, bal: u64) -> (r: String)
    ensures
        r@ == balance_line((addr@, bal)),
{
    let mut s = addr.clone();
    push_str(&mut s, ": ");
    let d = u64_to_string(bal);
    push_str(&mut s, d.as_str());
    push_str(&mut s, " LSAT");
    s
}

fn app_text(a: &AppInfo) -> (r: String)
    ensures
        r@ == app_line(*a),
{
    let mut s = a.app_id.clone();
    push_str(&mut s, " | ");
    push_str(&mut s, a.app_name.as_str());
    push_str(&mut s, " | 1 LSAT = ");
    let d = u64_to_string(a.rate_per_lsat);
    push_str(&mut s, d.as_str());
    push_str(&mut s, " ");
    push_str(&mut s, a.token_name.as_str());
    push_str(&mut s, " | owner: ");
    push_str(&mut s, a.owner.as_str());
    s
}

fn withdrawal_text(w: &WithdrawalRequest) -> (r: String)
    ensures
        r@ == withdrawal_line(*w),
{
    let mut s = w.id.clone();
    push_str(&mut s, ": ");
    let d = u64_to_string(w.amount);
    push_str(&mut s, d.as_str());
    push_str(&mut s, " LSAT → ");
    push_str(&mut s, w.btc_address.as_str());
    push_str(&mut s, " (deadline: ");
    let t = i64_to_string(w.challenge_deadline);
    push_str(&mut s, t.as_str());
    push_str(&mut s, ")");
    s
}

/// The snapshot's lines, taken at the time `generated`.
pub fn snapshot_lines_at(st: &AppState, generated: &str) -> (r: Vec<String>)
    ensures
        r@.map_values(|l: String| l@) == snapshot_lines(st, generated@),
{
    let mut lines: Vec<String> = Vec::new();
    lines.push(owned("# Lumen Network — Balance Snapshot"));
    let mut g = owned("# Generated:   ");
    push_str(&mut g, generated);
    lines.push(g);
    let mut r = owned("# State Root:  ");
    push_str(&mut r, st.latest_state_root.as_str());
    lines.push(r);
    let mut t = owned("# Total Txs:   ");
    let d = u64_to_string(st.total_transactions);
    push_str(&mut t, d.as_str());
    lines.push(t);
    let mut a = owned("# Accounts:    ");
    let d = u64_to_string(st.balances.len() as u64);
    push_str(&mut a, d.as_str());
    lines.push(a);
    let mut p = owned("# Apps:        ");
    let d = u64_to_string(st.apps.len() as u64);
    push_str(&mut p, d.as_str());
    lines.push(p);
    lines.push(String::new());
    lines.push(owned("## LSAT Balances"));
    let ghost head = lines@.map_values(|l: String| l@);
    proof {
        assert(head =~= seq![
            "# Lumen Network — Balance Snapshot"@,
            "# Generated:   "@ + generated@,
            "# State Root:  "@ + st.latest_state_root@,
            "# Total Txs:   "@ + dec_string(st.total_transactions as nat),
            "# Accounts:    "@ + dec_string(st.balances@.len()),
            "# Apps:        "@ + dec_string(st.apps@.len()),
            Seq::<char>::empty(),
            "## LSAT Balances"@,
        ]);
    }
    let sorted = balances_richest_first(st);
    let ghost sv = sorted@.map_values(|e: (String, u64)| (e.0@, e.1));
    let mut i: usize = 0;
    while i < sorted.len()
        invariant
            0 <= i <= sorted@.len(),
            sv == sorted@.map_values(|e: (String, u64)| (e.0@, e.1)),
            lines@.map_values(|l: String| l@) == head + sv.take(i as int).map_values(
                |e: (Seq<char>, u64)| balance_line(e),
            ),
        decreases sorted@.len() - i,
    {
        let ghost before = lines@.map_values(|l: String| l@);
        let line = balance_text(&sorted[i].0, sorted[i].1);
        lines.push(line);
        proof {
            assert(sv[i as int] == (sorted@[i as int].0@, sorted@[i as int].1));
            assert(sv.take(i + 1).map_values(|e: (Seq<char>, u64)| balance_line(e)) =~= sv.take(
                i as int,
            ).map_values(|e: (Seq<char>, u64)| balance_line(e)).push(balance_line(sv[i as int])));
            assert(lines@.map_values(|l: String| l@) =~= before.push(balance_line(sv[i as int])));
        }
        i = i + 1;
    }
    proof {
        assert(sv.take(sorted@.len() as int) =~= sv);
    }
    let ghost upto_bal = lines@.map_values(|l: String| l@);
    if st.apps.len() > 0 {
        lines.push(String::new());
        lines.push(owned("## Registered Apps"));
        let ghost base = lines@.map_values(|l: String| l@);
        proof {
            assert(base =~= upto_bal + seq![Seq::<char>::empty(), "## Registered Apps"@]);
        }
        let ghost av = st.apps@;
        let mut k: usize = 0;
        while k < st.apps.len()
            invariant
                0 <= k <= av.len(),
                av == st.apps@,
                lines@.map_values(|l: String| l@) == base + av.take(k as int).map_values(
                    |e: (Seq<char>, AppInfo)| app_line(e.1),
                ),
            decreases av.len() - k,
        {
            let ghost before = lines@.map_values(|l: String| l@);
            let line = app_text(st.apps.value_at(k));
            lines.push(line);
            proof {
                assert(av.take(k + 1).map_values(|e: (Seq<char>, AppInfo)| app_line(e.1)) =~= av.take(
                    k as int,
                ).map_values(|e: (Seq<char>, AppInfo)| app_line(e.1)).push(app_line(av[k as int].1)));
                assert(lines@.map_values(|l: String| l@) =~= before.push(app_line(av[k as int].1)));
            }
            k = k + 1;
        }
        proof {
            assert(av.take(av.len() as int) =~= av);
        }
    }
    let ghost upto_apps = lines@.map_values(|l: String| l@);
    if st.withdrawals.len() > 0 {
        lines.push(String::new());
        lines.push(owned("## Pending Withdrawals"));
        let ghost base = lines@.map_values(|l: String| l@);
        proof {
            assert(base =~= upto_apps + seq![Seq::<char>::empty(), "## Pending Withdrawals"@]);
        }
        let ghost wv = st.withdrawals@;
        let mut k: usize = 0;
        while k < st.withdrawals.len()
            invariant
                0 <= k <= wv.len(),
                wv == st.withdrawals@,
                lines@.map_values(|l: String| l@) == base + pending_withdrawals(wv.take(k as int)).map_values(
                    |w: WithdrawalRequest| withdrawal_line(w),
                ),
            decreases wv.len() - k,
        {
            let ghost before = lines@.map_values(|l: String| l@);
            let w = st.withdrawals.value_at(k);
            proof {
                assert(wv.take(k + 1).drop_last() =~= wv.take(k as int));
                assert(wv.take(k + 1).last() == wv[k as int]);
            }
            if w.status == WithdrawalStatus::Pending {
                let line = withdrawal_text(w);
                lines.push(line);
                proof {
                    let p = pending_withdrawals(wv.take(k as int));
                    assert(pending_withdrawals(wv.take(k + 1)) == p.push(*w));
                    assert(p.push(*w).map_values(|w: WithdrawalRequest| withdrawal_line(w)) =~= p.map_values(
                        |w: WithdrawalRequest| withdrawal_line(w),
                    ).push(withdrawal_line(*w)));
                    assert(lines@.map_values(|l: String| l@) =~= before.push(withdrawal_line(*w)));
                }
            }
            k = k + 1;
        }
        proof {
            assert(wv.take(wv.len() as int) =~= wv);
        }
    }
    proof {
        let bal = insertion_sort(st.balances@, richer_first()).map_values(
            |e: (Seq<char>, u64)| balance_line(e),
        );
        assert(lines@.map_values(|l: String| l@) =~= snapshot_lines(st, generated@));
    }
    lines
}

/// The snapshot, taken at the time `generated`: its lines joined by `\n`.
pub fn export_balance_snapshot_at(st: &AppState, generated: &str) -> (r: String)
    ensures
        r@ == join_lines(snapshot_lines(st, generated@)),
{
    let lines = snapshot_lines_at(st, generated);
    join(&lines)
}

/// Calls `chrono::Utc::now().to_rfc3339()`. Nothing is claimed of the
/// clock.
#[verifier::external_body]
fn now_rfc3339() -> (r: String) {
    chrono::Utc::now().to_rfc3339()
}

/// The snapshot, taken now.
pub fn export_balance_snapshot(st: &AppState) -> (r: String)
    ensures
        exists|g: Seq<char>| r@ == join_lines(#[trigger] snapshot_lines(st, g)),
{
    let g = now_rfc3339();
    export_balance_snapshot_at(st, g.as_str())
}

} // verus!

verus! {

/// The stored withdrawal requests, without their keys.
pub open spec fn withdrawal_records(ws: Seq<(Seq<char>, WithdrawalRequest)>) -> Seq<WithdrawalRequest> {
    ws.map_values(|e: (Seq<char>, WithdrawalRequest)| e.1)
}

/// The request still waits to be paid out.
pub open spec fn is_pending() -> spec_fn(WithdrawalRequest) -> bool {
    |w: WithdrawalRequest| w.status == WithdrawalStatus::Pending
}

proof fn lemma_pending_filter(ws: Seq<(Seq<char>, WithdrawalRequest)>)
    ensures
        pending_withdrawals(ws) == withdrawal_records(ws).filter(is_pending()),
    decreases ws.len(),
{
    reveal(Seq::filter);
    if ws.len() > 0 {
        lemma_pending_filter(ws.drop_last());
        assert(withdrawal_records(ws).drop_last() =~= withdrawal_records(ws.drop_last()));
    } else {
        assert(withdrawal_records(ws) =~= Seq::<WithdrawalRequest>::empty());
    }
}

/// The snapshot ends with its pending withdrawals: after the heading
/// `## Pending Withdrawals` come exactly the lines of the stored requests
/// whose status is `Pending`, one each, in stored order; the others are
/// not listed.
pub proof fn law_pending_withdrawal_lines(st: &AppState, generated: Seq<char>)
    requires
        st.withdrawals@.len() > 0,
    ensures
        ({
            let p = withdrawal_records(st.withdrawals@).filter(is_pending());
            let lines = snapshot_lines(st, generated);
            &&& lines.len() >= p.len() + 1
            &&& lines[lines.len() - p.len() - 1] == "## Pending Withdrawals"@
            &&& lines.skip(lines.len() - p.len()) == p.map_values(|w: WithdrawalRequest| withdrawal_line(w))
            &&& forall|i: int| 0 <= i < p.len() ==> (#[trigger] p[i]).status == WithdrawalStatus::Pending
            &&& forall|i: int|
                0 <= i < st.withdrawals@.len() && st.withdrawals@[i].1.status == WithdrawalStatus::Pending
                    ==> p.contains(#[trigger] st.withdrawals@[i].1)
        }),
{
    let ws = st.withdrawals@;
    lemma_pending_filter(ws);
    let m = withdrawal_records(ws);
    let p = m.filter(is_pending());
    m.filter_lemma(is_pending());
    let lines = snapshot_lines(st, generated);
    let pm = p.map_values(|w: WithdrawalRequest| withdrawal_line(w));
    let tail = seq![Seq::<char>::empty(), "## Pending Withdrawals"@] + pm;
    assert(lines =~= lines.take(lines.len() - tail.len()) + tail);
    assert(lines.skip(lines.len() - p.len()) =~= pm);
    assert forall|i: int| 0 <= i < p.len() implies (#[trigger] p[i]).status == WithdrawalStatus::Pending by {
        assert(is_pending()(p[i]));
    }
    assert forall|i: int|
        0 <= i < ws.len() && ws[i].1.status == WithdrawalStatus::Pending implies p.contains(
        #[trigger] ws[i].1,
    ) by {
        assert(m[i] == ws[i].1);
        m.lemma_filter_contains_rev(is_pending(), ws[i].1);
    }
}

} // verus!
