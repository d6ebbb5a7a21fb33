//! Base58 (Bitcoin alphabet), the text form of account keys.

use vstd::prelude::*;

verus! {

/// The Bitcoin base58 alphabet.
pub open spec fn alphabet() -> Seq<char> {
    "123456789ABCDEFGHJKLMNPQRSTUVWXYZabcdefghijkmnopqrstuvwxyz"@
}

/// The number that big-endian bytes denote.
pub open spec fn be_value(b: Seq<u8>) -> nat
    decreases b.len(),
{
    if b.len() == 0 {
        0
    } else {
        (be_value(b.drop_last()) * 256 + b.last()) as nat
    }
}

/// Number of leading zero bytes.
pub open spec fn leading_zeros(b: Seq<u8>) -> nat
    decreases b.len(),
{
    if b.len() == 0 {
        0
    } else if b[0] == 0 {
        1 + leading_zeros(b.drop_first())
    } else {
        0
    }
}

/// The base58 digits of `n`, most significant first (none for 0).
pub open spec fn digits58(n: nat) -> Seq<char>
    decreases n,
{
    if n == 0 {
        Seq::empty()
    } else {
        digits58(n / 58).push(alphabet()[(n % 58) as int])
    }
}

/// Base58 of bytes: a `1` per leading zero byte, then the digits of the
/// number the bytes denote.
pub open spec fn base58_spec(b: Seq<u8>) -> Seq<char> {
    Seq::new(leading_zeros(b), |i: int| '1') + digits58(be_value(b))
}

/// 58 to the power `k`.
pub open spec fn pow58(k: nat) -> nat
    decreases k,
{
    if k == 0 {
        1
    } else {
        58 * pow58((k - 1) as nat)
    }
}

/// The number that little-endian base-58 digits denote.
pub open spec fn le58(d: Seq<u8>) -> nat
    decreases d.len(),
{
    if d.len() == 0 {
        0
    } else {
        (le58(d.drop_last()) + d.last() * pow58((d.len() - 1) as nat)) as nat
    }
}

proof fn lemma_le58_take(d: Seq<u8>, j: int)
    requires
        0 <= j < d.len(),
    ensures
        le58(d.take(j + 1)) == le58(d.take(j)) + d[j] * pow58(j as nat),
{
    assert(d.take(j + 1).drop_last() =~= d.take(j));
}

proof fn lemma_le58_front(d: Seq<u8>)
    requires
        d.len() > 0,
    ensures
        le58(d) == d[0] + 58 * le58(d.drop_first()),
    decreases d.len(),
{
    if d.len() == 1 {
        assert(d.drop_last().len() == 0);
        assert(d.drop_first().len() == 0);
        assert(le58(d.drop_last()) == 0);
        assert(le58(d.drop_first()) == 0);
        assert(pow58(0) == 1);
        assert(d.last() == d[0]);
    } else {
        let dl = d.drop_last();
        let t = d.drop_first();
        lemma_le58_front(dl);
        assert(dl.drop_first() =~= t.drop_last());
        assert(dl[0] == d[0]);
        assert(t.last() == d.last());
        let n = (d.len() - 1) as nat;
        assert(pow58(n) == 58 * pow58((n - 1) as nat));
        let a = d.last() as int;
        let p = pow58((n - 1) as nat) as int;
        assert(a * (58 * p) == 58 * (a * p)) by (nonlinear_arith);
        assert(le58(t) == le58(t.drop_last()) + a * p);
        assert(le58(d) == le58(dl) + a * (58 * p));
    }
}

/// Minimal little-endian digits (no top zero) denote `n` exactly when, read
/// most significant first through the alphabet, they are `digits58(n)`.
proof fn lemma_digits_of(d: Seq<u8>, n: nat)
    requires
        forall|k: int| 0 <= k < d.len() ==> #[trigger] d[k] < 58,
        d.len() > 0 ==> d.last() != 0,
        le58(d) == n,
    ensures
        digits58(n) == Seq::new(d.len(), |i: int| alphabet()[d[d.len() - 1 - i] as int]),
    decreases d.len(),
{
    if d.len() == 0 {
        assert(digits58(0) =~= Seq::<char>::empty());
    } else {
        lemma_le58_front(d);
        let t = d.drop_first();
        let m = le58(t);
        assert(n == d[0] + 58 * m);
        assert(n % 58 == d[0] && n / 58 == m) by (nonlinear_arith)
            requires
                n == d[0] + 58 * m,
                0 <= d[0] < 58,
        ;
        if t.len() > 0 {
            assert(t.last() == d.last());
        } else {
            assert(m == 0);
        }
        assert(n != 0) by {
            if t.len() == 0 {
                assert(d[0] == d.last());
            } else {
                lemma_le58_pos(t);
            }
        }
        lemma_digits_of(t, m);
        assert(digits58(n) =~= Seq::new(d.len(), |i: int| alphabet()[d[d.len() - 1 - i] as int]));
    }
}

proof fn lemma_le58_pos(d: Seq<u8>)
    requires
        d.len() > 0,
        d.last() != 0,
    ensures
        le58(d) > 0,
{
    lemma_pow58_pos((d.len() - 1) as nat);
    let a = d.last() as int;
    let p = pow58((d.len() - 1) as nat) as int;
    assert(a * p > 0) by (nonlinear_arith)
        requires
            a > 0,
            p > 0,
    ;
}

proof fn lemma_pow58_pos(k: nat)
    ensures
        pow58(k) > 0,
    decreases k,
{
    if k > 0 {
        lemma_pow58_pos((k - 1) as nat);
    }
}

/// One byte more: the digits' number becomes `256 * old + x`.
proof fn lemma_step(old_v: int, new_prefix: int, carry: int, p: int, d: int, x: int, nd: int, nc: int)
    requires
        new_prefix + carry * p == 256 * old_v + x,
        nd + 58 * nc == carry + 256 * d,
    ensures
        (new_prefix + nd * p) + nc * (58 * p) == 256 * (old_v + d * p) + x,
{
    assert((new_prefix + nd * p) + nc * (58 * p) == new_prefix + (nd + 58 * nc) * p) by (nonlinear_arith);
    assert((carry + 256 * d) * p == carry * p + 256 * (d * p)) by (nonlinear_arith);
}

proof fn lemma_leading_zeros(b: Seq<u8>, z: int)
    requires
        0 <= z <= b.len(),
        forall|k: int| 0 <= k < z ==> #[trigger] b[k] == 0,
        z == b.len() || b[z] != 0,
    ensures
        leading_zeros(b) == z,
    decreases z,
{
    if z > 0 {
        let t = b.drop_first();
        assert forall|k: int| 0 <= k < z - 1 implies #[trigger] t[k] == 0 by {
            assert(t[k] == b[k + 1]);
        }
        if z < b.len() {
            assert(t[z - 1] == b[z]);
        }
        lemma_leading_zeros(t, z - 1);
    }
}

/// Base58 of the bytes.
pub fn to_base58(b: &[u8]) -> (r: String)
    ensures
        r@ == base58_spec(b@),
{
    let alpha = "123456789ABCDEFGHJKLMNPQRSTUVWXYZabcdefghijkmnopqrstuvwxyz";
    proof {
        reveal_strlit("123456789ABCDEFGHJKLMNPQRSTUVWXYZabcdefghijkmnopqrstuvwxyz");
    }
    let alpha_chars = crate::text::chars_of(alpha);
    let ghost bs = b@;
    // Little-endian base-58 digits of the bytes read so far.
    let mut digits: Vec<u8> = Vec::new();
    let mut i: usize = 0;
    while i < b.len()
        invariant
            bs == b@,
            0 <= i <= bs.len(),
            forall|k: int| 0 <= k < digits@.len() ==> #[trigger] digits@[k] < 58,
            digits@.len() > 0 ==> digits@.last() != 0,
            le58(digits@) == be_value(bs.take(i as int)),
        decreases bs.len() - i,
    {
        let x = b[i];
        let ghost old_d = digits@;
        let mut carry: u32 = x as u32;
        let mut j: usize = 0;
        let n = digits.len();
        proof {
            assert(old_d.take(0).len() == 0);
            assert(digits@.take(0).len() == 0);
            assert(pow58(0) == 1);
        }
        while j < n
            invariant
                n == digits@.len(),
                n == old_d.len(),
                0 <= j <= n,
                carry < 256,
                n > 0 ==> old_d.last() != 0,
                n > 0 && j == n ==> carry > 0,
                forall|k: int| 0 <= k < n ==> #[trigger] digits@[k] < 58,
                forall|k: int| j <= k < n ==> digits@[k] == old_d[k],
                forall|k: int| 0 <= k < n ==> #[trigger] old_d[k] < 58,
                le58(digits@.take(j as int)) + carry * pow58(j as nat) == 256 * le58(
                    old_d.take(j as int),
                ) + x,
            decreases n - j,
        {
            let dj = digits[j] as u32;
            let v = carry + 256 * dj;
            let nd = (v % 58) as u8;
            let nc = v / 58;
            let ghost prev = digits@;
            proof {
                lemma_le58_take(old_d, j as int);
                assert(nd + 58 * nc == carry + 256 * dj);
                lemma_step(
                    le58(old_d.take(j as int)) as int,
                    le58(prev.take(j as int)) as int,
                    carry as int,
                    pow58(j as nat) as int,
                    dj as int,
                    x as int,
                    nd as int,
                    nc as int,
                );
                if j + 1 == n {
                    assert(dj == old_d.last());
                }
            }
            digits.set(j, nd);
            proof {
                assert(digits@.take(j as int) =~= prev.take(j as int));
                lemma_le58_take(digits@, j as int);
                assert(pow58((j + 1) as nat) == 58 * pow58(j as nat));
            }
            carry = nc;
            j = j + 1;
        }
        proof {
            assert(digits@.take(n as int) =~= digits@);
            assert(old_d.take(n as int) =~= old_d);
            assert(bs.take(i + 1).drop_last() =~= bs.take(i as int));
        }
        while carry > 0
            invariant
                carry < 256,
                forall|k: int| 0 <= k < digits@.len() ==> #[trigger] digits@[k] < 58,
                digits@.len() > 0 ==> (digits@.last() != 0 || carry > 0),
                le58(digits@) + carry * pow58(digits@.len()) == be_value(bs.take(i + 1)),
            decreases carry,
        {
            let nd = (carry % 58) as u8;
            let nc = carry / 58;
            let ghost prev = digits@;
            digits.push(nd);
            proof {
                assert(digits@.drop_last() =~= prev);
                assert(pow58(digits@.len()) == 58 * pow58(prev.len()));
                let p = pow58(prev.len()) as int;
                assert(nd * p + nc * (58 * p) == carry * p) by (nonlinear_arith)
                    requires
                        nd + 58 * nc == carry,
                ;
            }
            carry = nc;
        }
        i = i + 1;
    }
    proof {
        assert(bs.take(bs.len() as int) =~= bs);
    }
    let mut out = String::new();
    let mut z: usize = 0;
    while z < b.len() && b[z] == 0
        invariant
            bs == b@,
            0 <= z <= bs.len(),
            forall|k: int| 0 <= k < z ==> #[trigger] bs[k] == 0,
            out@ == Seq::new(z as nat, |k: int| '1'),
        decreases bs.len() - z,
    {
        crate::text::push_char(&mut out, '1');
        proof {
            assert(out@ =~= Seq::new((z + 1) as nat, |k: int| '1'));
        }
        z = z + 1;
    }
    proof {
        lemma_leading_zeros(bs, z as int);
    }
    let ghost ones = out@;
    let nd = digits.len();
    let mut k: usize = 0;
    while k < nd
        invariant
            nd == digits@.len(),
            alpha_chars@ == alphabet(),
            alphabet().len() == 58,
            forall|m: int| 0 <= m < nd ==> #[trigger] digits@[m] < 58,
            0 <= k <= nd,
            out@ == ones + Seq::new(k as nat, |m: int| alphabet()[digits@[nd - 1 - m] as int]),
        decreases nd - k,
    {
        let dg = digits[nd - 1 - k];
        crate::text::push_char(&mut out, alpha_chars[dg as usize]);
        proof {
            assert(out@ =~= ones + Seq::new((k + 1) as nat, |m: int| alphabet()[digits@[nd - 1 - m] as int]));
        }
        k = k + 1;
    }
    proof {
        lemma_digits_of(digits@, be_value(bs));
    }
    out
}

} // verus!
