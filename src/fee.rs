use vstd::prelude::*;
use vstd::arithmetic::div_mod::lemma_hoist_over_denominator;

verus! {

/// Rates are expressed with eight decimal digits: a rate of `RATE_SCALE` is 100%.
pub const RATE_SCALE: u128 = 100_000_000;

/// How the fee of a transfer (or approval) is computed.
#[derive(Clone, Copy, Debug, PartialEq, Eq, Structural)]
pub enum Fee {
    /// The same fee whatever the amount.
    Fixed(u128),
    /// `max(lowest, amount * rate / RATE_SCALE)`, truncated.
    RateWithLowestLimit(u128, u32),
}

/// The fee that `fee` charges on `amount`, as an unbounded integer.
pub open spec fn fee_spec(fee: Fee, amount: nat) -> nat {
    match fee {
        Fee::Fixed(f) => f as nat,
        Fee::RateWithLowestLimit(lowest, rate) => {
            let by_rate: nat = (amount * (rate as nat)) / (RATE_SCALE as nat);
            if by_rate > lowest { by_rate } else { lowest as nat }
        },
    }
}

/// The fee as it is charged: `fee_spec`, saturated at `u128::MAX` (an amount that
/// no balance can cover).
pub open spec fn charged_fee(fee: Fee, amount: nat) -> nat {
    if fee_spec(fee, amount) > u128::MAX { u128::MAX as nat } else { fee_spec(fee, amount) }
}

proof fn lemma_rate_split(amount: nat, rate: nat)
    ensures
        (amount * rate) / (RATE_SCALE as nat) == (amount / (RATE_SCALE as nat)) * rate
            + ((amount % (RATE_SCALE as nat)) * rate) / (RATE_SCALE as nat),
{
    let s = RATE_SCALE as nat;
    let q = amount / s;
    let r = amount % s;
    assert(amount == q * s + r);
    assert(amount * rate == r * rate + (q * rate) * s) by (nonlinear_arith)
        requires amount == q * s + r;
    lemma_hoist_over_denominator((r * rate) as int, (q * rate) as int, s);
}

impl Fee {
    /// The fee charged on `amount`. The product is split around `RATE_SCALE` so
    /// that no intermediate value leaves 128 bits.
    pub fn compute(&self, amount: u128) -> (r: u128)
        ensures
            r == charged_fee(*self, amount as nat),
    {
        match *self {
            Fee::Fixed(f) => f,
            Fee::RateWithLowestLimit(lowest, rate) => {
                proof { lemma_rate_split(amount as nat, rate as nat); }
                let q = amount / RATE_SCALE;
                let rem = amount % RATE_SCALE;
                assert(rem * (rate as nat) < RATE_SCALE * 0x1_0000_0000) by (nonlinear_arith)
                    requires rem < RATE_SCALE, rate < 0x1_0000_0000;
                let low_part = rem * (rate as u128) / RATE_SCALE;
                match q.checked_mul(rate as u128) {
                    None => {
                        assert(q * rate > u128::MAX);
                        u128::MAX
                    },
                    Some(high_part) => match high_part.checked_add(low_part) {
                        None => u128::MAX,
                        Some(by_rate) => if by_rate > lowest { by_rate } else { lowest },
                    },
                }
            },
        }
    }
}

} // verus!
