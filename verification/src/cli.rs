//! What the command-line clients send: wallet addresses and the text of
//! ledger instructions.

use vstd::prelude::*;
use crate::text::{owned, push_str, push_char, chars_of, u64_to_string, dec_string};

verus! {

/// `Mint AMOUNT TARGET`
pub open spec fn mint_instruction_spec(amount: u64, target: Seq<char>) -> Seq<char> {
    "Mint "@ + dec_string(amount as nat) + " "@ + target
}

pub fn mint_instruction(amount: u64, target: &str) -> (r: String)
    ensures
        r@ == mint_instruction_spec(amount, target@),
{
    let mut s = owned("Mint ");
    let d = u64_to_string(amount);
    push_str(&mut s, d.as_str());
    push_str(&mut s, " ");
    push_str(&mut s, target);
    s
}

/// `Transfer AMOUNT TO`
pub open spec fn transfer_instruction_spec(amount: u64, to: Seq<char>) -> Seq<char> {
    "Transfer "@ + dec_string(amount as nat) + " "@ + to
}

pub fn transfer_instruction(amount: u64, to: &str) -> (r: String)
    ensures
        r@ == transfer_instruction_spec(amount, to@),
{
    let mut s = owned("Transfer ");
    let d = u64_to_string(amount);
    push_str(&mut s, d.as_str());
    push_str(&mut s, " ");
    push_str(&mut s, to);
    s
}

/// The text without its `-` characters.
pub open spec fn without_hyphens(s: Seq<char>) -> Seq<char>
    decreases s.len(),
{
    if s.len() == 0 {
        s
    } else if s.last() == '-' {
        without_hyphens(s.drop_last())
    } else {
        without_hyphens(s.drop_last()).push(s.last())
    }
}

/// A wallet address made from a random id: `0x` and the first sixteen
/// characters of the id without its hyphens.
pub open spec fn wallet_address_spec(id: Seq<char>) -> Seq<char> {
    "0x"@ + without_hyphens(id).take(16)
}

/// A wallet address from a random id (such as a hyphenated UUID) that has
/// at least sixteen characters besides its hyphens (a shorter one makes the
/// slice in the client panic).
pub fn wallet_address(id: &str) -> (r: String)
    requires
        without_hyphens(id@).len() >= 16,
    ensures
        r@ == wallet_address_spec(id@),
{
    let cs = chars_of(id);
    let mut kept: Vec<char> = Vec::new();
    let mut i: usize = 0;
    while i < cs.len()
        invariant
            0 <= i <= cs@.len(),
            cs@ == id@,
            kept@ == without_hyphens(cs@.take(i as int)),
        decreases cs@.len() - i,
    {
        proof {
            assert(cs@.take(i + 1).drop_last() =~= cs@.take(i as int));
            assert(cs@.take(i + 1).last() == cs@[i as int]);
        }
        if cs[i] != '-' {
            kept.push(cs[i]);
        }
        i = i + 1;
    }
    proof {
        assert(cs@.take(cs@.len() as int) =~= cs@);
    }
    let mut s = owned("0x");
    let mut k: usize = 0;
    while k < 16
        invariant
            0 <= k <= 16,
            kept@.len() >= 16,
            s@ == "0x"@ + kept@.take(k as int),
        decreases 16 - k,
    {
        push_char(&mut s, kept[k]);
        proof {
            assert(kept@.take(k + 1) =~= kept@.take(k as int).push(kept@[k as int]));
            assert(s@ =~= "0x"@ + kept@.take(k + 1));
        }
        k = k + 1;
    }
    s
}

} // verus!
