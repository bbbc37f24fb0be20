//! Gas statistics over a sequence of measurements.

use vstd::prelude::*;
use vstd::relations::{sorted_by, total_ordering};

verus! {

/// The order by which gas measurements are sorted.
pub open spec fn gas_leq(a: u64, b: u64) -> bool {
    a <= b
}

/// The gas of one measurement, with or without the stipend; without it the
/// subtraction stops at zero.
pub open spec fn gas_value(gas: u64, stipend: u64, with_stipend: bool) -> u64 {
    if with_stipend {
        gas
    } else if gas >= stipend {
        (gas - stipend) as u64
    } else {
        0
    }
}

/// The measurements in ascending order.
pub open spec fn sorted_values(v: Seq<u64>) -> Seq<u64> {
    v.sort_by(|a: u64, b: u64| gas_leq(a, b))
}

/// The element at index `len / 2` of the sorted measurements, zero when
/// there are none.
pub open spec fn median_of(v: Seq<u64>) -> u64 {
    let s = sorted_values(v);
    if s.len() == 0 {
        0
    } else {
        s[(s.len() / 2) as int]
    }
}

pub open spec fn sum_of(v: Seq<u64>) -> nat
    decreases v.len(),
{
    if v.len() == 0 {
        0
    } else {
        (sum_of(v.drop_last()) + v.last()) as nat
    }
}

/// The arithmetic mean rounded down, zero when there are no measurements.
pub open spec fn mean_of(v: Seq<u64>) -> u64 {
    if v.len() == 0 {
        0
    } else {
        (sum_of(v) / v.len()) as u64
    }
}

proof fn lemma_gas_leq_total()
    ensures
        total_ordering(|a: u64, b: u64| gas_leq(a, b)),
{
}

proof fn lemma_sum_bound(v: Seq<u64>)
    ensures
        sum_of(v) <= v.len() * (u64::MAX as nat),
    decreases v.len(),
{
    if v.len() > 0 {
        lemma_sum_bound(v.drop_last());
        assert(sum_of(v.drop_last()) + v.last() <= (v.len() - 1) * (u64::MAX as nat) + (
        u64::MAX as nat)) by (nonlinear_arith)
            requires
                sum_of(v.drop_last()) <= (v.len() - 1) * (u64::MAX as nat),
                v.last() <= u64::MAX,
        ;
        assert((v.len() - 1) * (u64::MAX as nat) + (u64::MAX as nat) == v.len() * (
        u64::MAX as nat)) by (nonlinear_arith);
    }
}

/// Sorts the measurements in ascending order.
///
/// Relies on `slice::sort_unstable`: the result is the same values in
/// ascending order.
#[verifier::external_body]
fn sort_unstable_u64(v: &mut Vec<u64>)
    ensures
        final(v)@.to_multiset() == old(v)@.to_multiset(),
        sorted_by(final(v)@, |a: u64, b: u64| gas_leq(a, b)),
{
    v.sort_unstable()
}

/// Sorts the measurements; the result is `sorted_values` of the input.
pub fn sort_values(v: &mut Vec<u64>)
    ensures
        final(v)@ == sorted_values(old(v)@),
{
    let ghost before = v@;
    sort_unstable_u64(v);
    proof {
        lemma_gas_leq_total();
        before.lemma_sort_by_ensures(|a: u64, b: u64| gas_leq(a, b));
        vstd::seq_lib::lemma_sorted_unique(
            v@,
            sorted_values(before),
            |a: u64, b: u64| gas_leq(a, b),
        );
    }
}

/// The middle element of sorted measurements (index `len / 2`), zero when
/// empty.
pub fn median_sorted(values: &Vec<u64>) -> (r: u64)
    ensures
        r == (if values@.len() == 0 {
            0
        } else {
            values@[(values@.len() / 2) as int]
        }),
{
    if values.len() == 0 {
        0
    } else {
        values[values.len() / 2]
    }
}

/// The arithmetic mean of the measurements, rounded down; zero when empty.
pub fn mean(values: &Vec<u64>) -> (r: u64)
    ensures
        r == mean_of(values@),
{
    if values.len() == 0 {
        return 0;
    }
    let mut total: u128 = 0;
    let mut i: usize = 0;
    while i < values.len()
        invariant
            i <= values@.len(),
            total == sum_of(values@.subrange(0, i as int)),
            total <= i * (u64::MAX as nat),
        decreases values@.len() - i,
    {
        proof {
            let s = values@.subrange(0, i as int + 1);
            assert(s.drop_last() =~= values@.subrange(0, i as int));
            assert(total + values@[i as int] <= (i + 1) * (u64::MAX as nat)) by (nonlinear_arith)
                requires
                    total <= i * (u64::MAX as nat),
                    values@[i as int] <= u64::MAX,
            ;
            assert((i + 1) * (u64::MAX as nat) < u128::MAX) by (nonlinear_arith)
                requires
                    i < 0x1_0000_0000_0000_0000,
            ;
        }
        total = total + values[i] as u128;
        i = i + 1;
    }
    assert(values@.subrange(0, i as int) =~= values@);
    let n = values.len() as u128;
    proof {
        lemma_sum_bound(values@);
        assert((total as nat) / (n as nat) <= u64::MAX) by (nonlinear_arith)
            requires
                total <= n * (u64::MAX as nat),
                n > 0,
        ;
    }
    (total / n) as u64
}

/// Without the stipend, a measurement's gas never exceeds its gas with the
/// stipend, and is the difference where the gas covers the stipend and zero
/// where it does not.
pub proof fn lemma_gas_without_stipend(gas: u64, stipend: u64)
    ensures
        gas_value(gas, stipend, false) <= gas_value(gas, stipend, true),
        gas_value(gas, stipend, true) == gas,
        gas >= stipend ==> gas_value(gas, stipend, false) == gas - stipend,
        gas < stipend ==> gas_value(gas, stipend, false) == 0,
{
}

/// With no measurements, the median and the mean are both zero.
pub proof fn lemma_empty_statistics()
    ensures
        median_of(Seq::<u64>::empty()) == 0,
        mean_of(Seq::<u64>::empty()) == 0,
{
    lemma_gas_leq_total();
    Seq::<u64>::empty().lemma_sort_by_ensures(|a: u64, b: u64| gas_leq(a, b));
    let s = sorted_values(Seq::<u64>::empty());
    s.to_multiset_ensures();
    Seq::<u64>::empty().to_multiset_ensures();
}

} // verus!
