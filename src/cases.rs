//! Recorded fuzz cases and the gas-sorted view over them.

use vstd::prelude::*;
use crate::stats::{gas_value, mean, mean_of, median_of, median_sorted, sort_values};

verus! {

/// One successful fuzz run: its input and the gas it used.
#[derive(Clone, Debug)]
pub struct FuzzCase {
    /// Selector followed by the encoded arguments.
    pub calldata: Vec<u8>,
    /// Gas used by the call, stipend included.
    pub gas: u64,
    /// Gas charged before the call began.
    pub stipend: u64,
}

impl FuzzCase {
    pub fn new(calldata: Vec<u8>, gas: u64, stipend: u64) -> (r: FuzzCase)
        ensures
            r.calldata@ == calldata@,
            r.gas == gas,
            r.stipend == stipend,
    {
        FuzzCase { calldata, gas, stipend }
    }
}

/// Cases in ascending order of gas.
pub open spec fn sorted_by_gas(s: Seq<FuzzCase>) -> bool {
    forall|i: int, j: int| 0 <= i <= j < s.len() ==> s[i].gas <= s[j].gas
}

/// `after` is `before` sorted by gas, cases of equal gas kept in their
/// order: `p` maps each place of `after` to the place in `before` it came
/// from.
pub open spec fn stable_by_gas(before: Seq<FuzzCase>, after: Seq<FuzzCase>, p: Seq<int>) -> bool {
    &&& p.len() == before.len()
    &&& after.len() == before.len()
    &&& forall|i: int| 0 <= i < p.len() ==> 0 <= #[trigger] p[i] < before.len()
    &&& forall|i: int, j: int| 0 <= i < j < p.len() ==> #[trigger] p[i] != #[trigger] p[j]
    &&& forall|i: int| 0 <= i < p.len() ==> after[i] == before[#[trigger] p[i]]
    &&& forall|i: int, j: int|
        0 <= i < j < p.len() && after[i].gas == after[j].gas ==> #[trigger] p[i] < #[trigger] p[j]
}

/// The gas of each case, with or without its stipend.
pub open spec fn case_gas_values(s: Seq<FuzzCase>, with_stipend: bool) -> Seq<u64> {
    s.map_values(|c: FuzzCase| gas_value(c.gas, c.stipend, with_stipend))
}

/// Sorts the cases by gas.
///
/// Relies on `slice::sort_by_key`: a stable sort of the same cases by the key
/// that the closure picks.
#[verifier::external_body]
fn sort_cases_by_gas(cases: &mut Vec<FuzzCase>)
    ensures
        final(cases)@.to_multiset() == old(cases)@.to_multiset(),
        sorted_by_gas(final(cases)@),
        exists|p: Seq<int>| stable_by_gas(old(cases)@, final(cases)@, p),
{
    cases.sort_by_key(|c| c.gas)
}

/// All successful cases of a session, sorted by gas.
#[derive(Clone, Debug)]
pub struct FuzzedCases {
    cases: Vec<FuzzCase>,
}

impl View for FuzzedCases {
    type V = Seq<FuzzCase>;

    closed spec fn view(&self) -> Seq<FuzzCase> {
        self.cases@
    }
}

impl FuzzedCases {
    /// Well-formed: the cases are in ascending order of gas.
    pub open spec fn wf(&self) -> bool {
        sorted_by_gas(self@)
    }

    pub fn new(cases: Vec<FuzzCase>) -> (r: FuzzedCases)
        ensures
            r.wf(),
            r@.to_multiset() == cases@.to_multiset(),
            exists|p: Seq<int>| stable_by_gas(cases@, r@, p),
    {
        let mut cases = cases;
        sort_cases_by_gas(&mut cases);
        FuzzedCases { cases }
    }

    pub fn cases(&self) -> (r: &[FuzzCase])
        ensures
            r@ == self@,
    {
        self.cases.as_slice()
    }

    pub fn into_cases(self) -> (r: Vec<FuzzCase>)
        ensures
            r@ == self@,
    {
        self.cases
    }

    /// The last case, the one with the most gas.
    pub fn last(&self) -> (r: Option<&FuzzCase>)
        ensures
            r.is_none() <==> self@.len() == 0,
            r.is_some() ==> *r.unwrap() == self@.last(),
    {
        if self.cases.len() == 0 {
            None
        } else {
            Some(&self.cases[self.cases.len() - 1])
        }
    }

    /// The gas of each case, in the order of the cases.
    pub fn gas_values(&self, with_stipend: bool) -> (r: Vec<u64>)
        ensures
            r@ == case_gas_values(self@, with_stipend),
    {
        let mut r: Vec<u64> = Vec::new();
        let mut i: usize = 0;
        while i < self.cases.len()
            invariant
                i <= self@.len(),
                r@ == case_gas_values(self@.subrange(0, i as int), with_stipend),
            decreases self@.len() - i,
        {
            let c = &self.cases[i];
            let g = if with_stipend {
                c.gas
            } else {
                c.gas.saturating_sub(c.stipend)
            };
            r.push(g);
            proof {
                assert(case_gas_values(self@.subrange(0, i as int + 1), with_stipend) =~= r@);
            }
            i = i + 1;
        }
        proof {
            assert(self@.subrange(0, i as int) =~= self@);
        }
        r
    }

    /// The median of the cases' gas.
    pub fn median_gas(&self, with_stipend: bool) -> (r: u64)
        ensures
            r == median_of(case_gas_values(self@, with_stipend)),
    {
        let mut values = self.gas_values(with_stipend);
        sort_values(&mut values);
        median_sorted(&values)
    }

    /// The mean of the cases' gas, rounded down.
    pub fn mean_gas(&self, with_stipend: bool) -> (r: u64)
        ensures
            r == mean_of(case_gas_values(self@, with_stipend)),
    {
        let values = self.gas_values(with_stipend);
        mean(&values)
    }

    /// The case with the most gas.
    pub fn highest(&self) -> (r: Option<&FuzzCase>)
        ensures
            r.is_none() <==> self@.len() == 0,
            r.is_some() ==> *r.unwrap() == self@.last(),
    {
        self.last()
    }

    /// The case with the least gas.
    pub fn lowest(&self) -> (r: Option<&FuzzCase>)
        ensures
            r.is_none() <==> self@.len() == 0,
            r.is_some() ==> *r.unwrap() == self@[0],
    {
        if self.cases.len() == 0 {
            None
        } else {
            Some(&self.cases[0])
        }
    }

    /// The gas of the case with the most gas; zero when there is none.
    pub fn highest_gas(&self, with_stipend: bool) -> (r: u64)
        requires
            self@.len() > 0 && !with_stipend ==> self@.last().gas >= self@.last().stipend,
        ensures
            r == (if self@.len() == 0 {
                0
            } else if with_stipend {
                self@.last().gas
            } else {
                (self@.last().gas - self@.last().stipend) as u64
            }),
    {
        match self.highest() {
            Some(c) => if with_stipend {
                c.gas
            } else {
                c.gas - c.stipend
            },
            None => 0,
        }
    }

    /// The gas of the case with the least gas, stipend included; zero when
    /// there is none.
    pub fn lowest_gas(&self) -> (r: u64)
        ensures
            r == (if self@.len() == 0 {
                0
            } else {
                self@[0].gas
            }),
    {
        match self.lowest() {
            Some(c) => c.gas,
            None => 0,
        }
    }
}

} // verus!
