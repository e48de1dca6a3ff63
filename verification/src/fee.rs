//! Scalar fee-rate estimation arithmetic: percentile selection over a
//! block's measured fee rates, and exponential-decay blending of a new
//! block's measurement into the running estimate.  The relational store
//! that persists the single estimate row lives with the rest of the I/O,
//! outside the verified core.

use vstd::prelude::*;
use vstd::seq_lib::group_to_multiset_ensures;

verus! {

broadcast use group_to_multiset_ensures;

/// A three-point fee-rate estimate: the 95th, 50th and 5th percentile fee
/// rates observed, serving the hurried, the typical and the patient sender.
#[derive(Clone, Copy, Debug, PartialEq, Eq, Structural)]
pub struct FeeRateEstimate {
    pub fast: u64,
    pub medium: u64,
    pub slow: u64,
}

/// One field of the decayed combination
/// `(prior / den) * num + (measured / den) * (den - num)`,
/// each product and the final sum saturating at the `u64` ceiling.
pub open spec fn decay_field(prior: u64, measured: u64, num: u16, den: u16) -> int
    recommends
        den > 0,
{
    let a = (prior as int / den as int) * (num as int);
    let b = (measured as int / den as int) * (den as int - num as int);
    let a64: int = if a > u64::MAX {
        u64::MAX as int
    } else {
        a
    };
    let b64: int = if b > u64::MAX {
        u64::MAX as int
    } else {
        b
    };
    if a64 + b64 > u64::MAX {
        u64::MAX as int
    } else {
        a64 + b64
    }
}

fn decay_field_exec(prior: u64, measured: u64, num: u16, den: u16) -> (r: u64)
    requires
        0 < den,
        num <= den,
    ensures
        r == decay_field(prior, measured, num, den),
{
    let a: u64 = match (prior / (den as u64)).checked_mul(num as u64) {
        Some(v) => v,
        None => u64::MAX,
    };
    let b: u64 = match (measured / (den as u64)).checked_mul((den - num) as u64) {
        Some(v) => v,
        None => u64::MAX,
    };
    match a.checked_add(b) {
        Some(v) => v,
        None => u64::MAX,
    }
}

/// The next running estimate after a block: with no prior estimate, the
/// block's measurement stands as is; otherwise each field decays by
/// `num/den` toward the prior and takes the rest from the measurement.
pub fn next_estimate(
    prior: Option<&FeeRateEstimate>,
    measured: &FeeRateEstimate,
    decay_num: u16,
    decay_den: u16,
) -> (r: FeeRateEstimate)
    requires
        0 < decay_den,
        decay_num <= decay_den,
    ensures
        prior is None ==> r == *measured,
        prior matches Some(p) ==> {
            &&& r.fast == decay_field(p.fast, measured.fast, decay_num, decay_den)
            &&& r.medium == decay_field(p.medium, measured.medium, decay_num, decay_den)
            &&& r.slow == decay_field(p.slow, measured.slow, decay_num, decay_den)
        },
{
    match prior {
        None => *measured,
        Some(p) => FeeRateEstimate {
            fast: decay_field_exec(p.fast, measured.fast, decay_num, decay_den),
            medium: decay_field_exec(p.medium, measured.medium, decay_num, decay_den),
            slow: decay_field_exec(p.slow, measured.slow, decay_num, decay_den),
        },
    }
}

/// The fee rate one transaction paid: its fee over its scalar cost, the
/// cost floored at one so a free transaction cannot divide by zero.
pub fn fee_rate(fee: u64, scalar_cost: u64) -> (r: u64)
    ensures
        r == fee as int / (if scalar_cost < 1 {
            1int
        } else {
            scalar_cost as int
        }),
{
    fee / (if scalar_cost < 1 {
        1
    } else {
        scalar_cost
    })
}

/// Ascending order.
pub open spec fn sorted(s: Seq<u64>) -> bool {
    forall|a: int, b: int| 0 <= a <= b < s.len() ==> s[a] <= s[b]
}

/// Sort a block's measured fee rates ascending, keeping exactly the same
/// multiset of measurements.
pub fn sort_fee_rates(rates: &mut Vec<u64>)
    ensures
        sorted(final(rates)@),
        final(rates)@.to_multiset() == old(rates)@.to_multiset(),
        final(rates)@.len() == old(rates)@.len(),
{
    let mut i: usize = 1;
    while i < rates.len()
        invariant
            1 <= i,
            rates@.len() == old(rates)@.len(),
            rates@.to_multiset() == old(rates)@.to_multiset(),
            forall|a: int, b: int| 0 <= a <= b < i && b < rates@.len() ==> rates@[a] <= rates@[b],
        decreases rates@.len() - i,
    {
        let ghost before = rates@;
        let x = rates.remove(i);
        let mut p: usize = 0;
        while p < i && rates[p] <= x
            invariant
                p <= i,
                i < before.len(),
                rates@ == before.remove(i as int),
                forall|q: int| 0 <= q < p ==> rates@[q] <= x,
            decreases i - p,
        {
            p = p + 1;
        }
        rates.insert(p, x);
        proof {
            assert(before.remove(i as int).to_multiset() =~= before.to_multiset().remove(
                before[i as int],
            ));
            assert(rates@.to_multiset() =~= before.to_multiset());
            assert forall|a: int, b: int|
                0 <= a <= b < i + 1 && b < rates@.len() implies rates@[a] <= rates@[b] by {
                let s = before.remove(i as int);
                if a < p && b < p {
                    assert(rates@[a] == s[a] && rates@[b] == s[b]);
                } else if a < p && b == p as int {
                    assert(rates@[a] == s[a] && rates@[b] == x);
                } else if a < p && b > p {
                    assert(rates@[a] == s[a] && rates@[b] == s[b - 1]);
                } else if a == p as int && b == p as int {
                } else if a == p as int && b > p {
                    assert(rates@[a] == x && rates@[b] == s[b - 1]);
                    assert(s[p as int] > x);
                    assert(s[p as int] <= s[b - 1]);
                } else {
                    assert(rates@[a] == s[a - 1] && rates@[b] == s[b - 1]);
                }
            }
        }
        i = i + 1;
    }
}

/// The three-point estimate a block's fee rates yield: after sorting, the
/// 5th percentile is the slow rate, the median the medium rate, and the
/// 95th percentile the fast rate.  A block with no measured rates yields
/// no estimate.  The three picks are always ordered
/// `slow <= medium <= fast`.
pub fn block_estimate_from_rates(rates: &mut Vec<u64>) -> (r: Option<FeeRateEstimate>)
    ensures
        sorted(final(rates)@),
        final(rates)@.to_multiset() == old(rates)@.to_multiset(),
        final(rates)@.len() == old(rates)@.len(),
        (r is Some) <==> old(rates)@.len() > 0,
        r matches Some(e) ==> {
            let s = final(rates)@;
            let n = s.len() as int;
            let bulk = if n / 20 > 1 {
                n / 20
            } else {
                1
            };
            &&& e.fast == s[n - bulk]
            &&& e.medium == s[n / 2]
            &&& e.slow == s[n / 20]
            &&& e.slow <= e.medium <= e.fast
        },
{
    sort_fee_rates(rates);
    let n = rates.len();
    if n == 0 {
        return None;
    }
    let bulk: usize = if n / 20 > 1 {
        n / 20
    } else {
        1
    };
    let fastest_index = n - bulk;
    let median_index = n / 2;
    let slowest_index = n / 20;
    let e = FeeRateEstimate {
        fast: rates[fastest_index],
        medium: rates[median_index],
        slow: rates[slowest_index],
    };
    proof {
        assert(slowest_index <= median_index);
        assert(median_index <= fastest_index);
    }
    Some(e)
}

} // verus!
