//! Text of hashes: the identity of a proposed block, and a shortened form for display.
use vstd::prelude::*;

verus! {

/// The character of decimal digit `d`.
pub open spec fn digit_char(d: nat) -> char {
    seq!['0', '1', '2', '3', '4', '5', '6', '7', '8', '9'][d as int]
}

/// The decimal digits of `n`, most significant first, without leading zeros.
pub open spec fn decimal(n: nat) -> Seq<char>
    decreases n,
{
    if n < 10 {
        seq![digit_char(n)]
    } else {
        decimal(n / 10).push(digit_char(n % 10))
    }
}

/// Relies on `ToString::to_string` for `u64`, through its `Display`: the decimal digits of the
/// number, without sign, padding or leading zeros.
#[verifier::external_body]
fn decimal_string(n: u64) -> (r: String)
    ensures
        r@ == decimal(n as nat),
{
    n.to_string()
}

/// The hash of the block that validator `proposer` proposes in `slot`.
pub open spec fn proposal_hash(slot: u64, proposer: u64) -> Seq<char> {
    "block_slot_"@ + decimal(slot as nat) + "_proposer_"@ + decimal(proposer as nat)
}

/// The hash of the block that validator `proposer` proposes in `slot`.
pub fn proposal_hash_string(slot: u64, proposer: u64) -> (r: String)
    ensures
        r@ == proposal_hash(slot, proposer),
{
    let s = "block_slot_".to_string();
    let a = decimal_string(slot);
    let s = s.concat(a.as_str());
    let s = s.concat("_proposer_");
    let b = decimal_string(proposer);
    s.concat(b.as_str())
}

/// A hash shortened for display: its first twelve characters and "..." when it is longer.
pub fn truncate_hash(hash: &str) -> (r: String)
    ensures
        r@ == (if hash@.len() > 12 {
            hash@.subrange(0, 12) + "..."@
        } else {
            hash@
        }),
{
    if hash.unicode_len() > 12 {
        let head = hash.substring_char(0, 12).to_string();
        head.concat("...")
    } else {
        hash.to_string()
    }
}

} // verus!
