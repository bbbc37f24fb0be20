//! The state of a fuzz session across iterations, and the result it reduces
//! to when the property runner stops.

use vstd::prelude::*;
use crate::cases::FuzzCase;
use crate::coverage::{sat_add, HitMaps};
use crate::dictionary::Log;
use crate::outcome::{message_of, FuzzError, FuzzOutcome, RawCallResult, TestCaseError};
use crate::stats::{gas_value, mean, mean_of, median_of, median_sorted, sort_values};

verus! {

/// A failing call, with what is known of it.
pub struct BaseCounterExample<T> {
    /// Address which made the call.
    pub sender: Option<[u8; 20]>,
    /// Address that was called.
    pub addr: Option<[u8; 20]>,
    pub calldata: Vec<u8>,
    /// Signature of the called function, where known.
    pub signature: Option<String>,
    /// Name of the called contract, where known.
    pub contract_name: Option<String>,
    pub traces: Option<T>,
    /// The decoded arguments, each as text.
    pub args: Vec<String>,
}

pub enum CounterExample<T> {
    /// One call, for fuzz tests.
    Single(BaseCounterExample<T>),
    /// A sequence of calls, for invariant tests.
    Sequence(Vec<BaseCounterExample<T>>),
}

/// How the property runner ended.
pub enum RunResult {
    /// Every iteration passed.
    Passed,
    /// The runner gave up, for the reason given.
    Abort(String),
    /// An iteration failed, for the reason given.
    Fail(String),
}

/// The reason the runner gives when too many inputs were rejected.
pub open spec fn too_many_global_rejects() -> Seq<char> {
    "Too many global rejects"@
}

/// The outcome of a fuzz session.
pub struct FuzzTestResult<T> {
    /// The first case, kept for the debugger; empty when there was none.
    pub first_case: FuzzCase,
    /// Gas used and stipend of each case, in order.
    pub gas_by_case: Vec<(u64, u64)>,
    /// Whether every iteration met the expectation.
    pub success: bool,
    /// Why the session failed, where a reason is known.
    pub reason: Option<String>,
    /// The failing input, where one was found.
    pub counterexample: Option<CounterExample<T>>,
    /// Logs of the last case on success, else of the stored failing call.
    pub logs: Vec<Log>,
    /// Labels of the last case on success, else of the stored failing call.
    pub labeled_addresses: Vec<([u8; 20], String)>,
    /// One trace: of the last case on success, else of the failing call.
    pub traces: Option<T>,
    /// The coverage of all cases together.
    pub coverage: Option<HitMaps>,
}

/// The gas of each recorded `(gas, stipend)` pair.
pub open spec fn pair_gas_values(s: Seq<(u64, u64)>, with_stipend: bool) -> Seq<u64> {
    s.map_values(|p: (u64, u64)| gas_value(p.0, p.1, with_stipend))
}

impl<T> FuzzTestResult<T> {
    /// The gas of each case, in order.
    pub fn gas_values(&self, with_stipend: bool) -> (r: Vec<u64>)
        ensures
            r@ == pair_gas_values(self.gas_by_case@, with_stipend),
    {
        let mut r: Vec<u64> = Vec::new();
        let mut i: usize = 0;
        while i < self.gas_by_case.len()
            invariant
                i <= self.gas_by_case@.len(),
                r@ == pair_gas_values(self.gas_by_case@.subrange(0, i as int), with_stipend),
            decreases self.gas_by_case@.len() - i,
        {
            let (gas, stipend) = self.gas_by_case[i];
            let g = if with_stipend {
                gas
            } else {
                gas.saturating_sub(stipend)
            };
            r.push(g);
            proof {
                assert(pair_gas_values(self.gas_by_case@.subrange(0, i as int + 1), with_stipend)
                    =~= r@);
            }
            i = i + 1;
        }
        proof {
            assert(self.gas_by_case@.subrange(0, i as int) =~= self.gas_by_case@);
        }
        r
    }

    /// The median gas of the cases.
    pub fn median_gas(&self, with_stipend: bool) -> (r: u64)
        ensures
            r == median_of(pair_gas_values(self.gas_by_case@, with_stipend)),
    {
        let mut values = self.gas_values(with_stipend);
        sort_values(&mut values);
        median_sorted(&values)
    }

    /// The mean gas of the cases, rounded down.
    pub fn mean_gas(&self, with_stipend: bool) -> (r: u64)
        ensures
            r == mean_of(pair_gas_values(self.gas_by_case@, with_stipend)),
    {
        let values = self.gas_values(with_stipend);
        mean(&values)
    }
}

/// What a session has gathered so far.
pub struct FuzzSession<T> {
    /// The first case seen.
    pub first_case: Option<FuzzCase>,
    /// Gas used and stipend of each case, in order.
    pub gas_by_case: Vec<(u64, u64)>,
    /// The input and result of the last failing call.
    pub counterexample: Option<(Vec<u8>, RawCallResult<T>)>,
    /// The traces of the last case.
    pub traces: Option<T>,
    /// The coverage of all cases together.
    pub coverage: Option<HitMaps>,
    /// The logs of the last case.
    pub logs: Vec<Log>,
    /// The labels of the last case.
    pub labels: Vec<([u8; 20], String)>,
}

/// The hit count of a coverage that may be absent.
pub open spec fn hits_of(c: Option<HitMaps>, a: Seq<u8>, pc: u64) -> nat {
    match c {
        Some(h) => h.count(a, pc),
        None => 0,
    }
}

/// Whether the coverage, where present, is well-formed.
pub open spec fn coverage_wf(c: Option<HitMaps>) -> bool {
    match c {
        Some(h) => h.wf(),
        None => true,
    }
}

/// Copies the presence of a trace; what a copy holds is up to `T::clone`.
fn clone_traces<T: Clone>(t: &Option<T>) -> (r: Option<T>)
    ensures
        r.is_some() == t.is_some(),
{
    match t {
        Some(x) => Some(x.clone()),
        None => None,
    }
}

impl<T> FuzzSession<T> {
    /// Well-formed: the merged coverage is.
    pub open spec fn wf(&self) -> bool {
        coverage_wf(self.coverage)
    }

    /// A session that has seen nothing.
    pub fn new() -> (r: FuzzSession<T>)
        ensures
            r.wf(),
            r.first_case.is_none(),
            r.gas_by_case@.len() == 0,
            r.counterexample.is_none(),
            r.traces.is_none(),
            r.coverage.is_none(),
            r.logs@.len() == 0,
            r.labels@.len() == 0,
    {
        FuzzSession {
            first_case: None,
            gas_by_case: Vec::new(),
            counterexample: None,
            traces: None,
            coverage: None,
            logs: Vec::new(),
            labels: Vec::new(),
        }
    }

    /// Records one classified call. A case is appended to the gas record,
    /// becomes the first case if there was none, replaces the kept traces and
    /// adds its coverage; the iteration passes. A counter-example replaces the
    /// stored failing call, before the iteration fails with `revert_reason`,
    /// so that the input stored is that of the last failure seen while the
    /// runner shrinks.
    pub fn record(&mut self, outcome: FuzzOutcome<T>, revert_reason: String) -> (r: Result<
        (),
        TestCaseError,
    >)
        requires
            old(self).wf(),
            outcome matches FuzzOutcome::Case(o) ==> coverage_wf(o.coverage),
        ensures
            final(self).wf(),
            match outcome {
                FuzzOutcome::Case(o) => {
                    &&& r is Ok
                    &&& final(self).gas_by_case@ == old(self).gas_by_case@.push(
                        (o.case.gas, o.case.stipend),
                    )
                    &&& final(self).first_case == (if old(self).first_case.is_none() {
                        Some(o.case)
                    } else {
                        old(self).first_case
                    })
                    &&& final(self).traces == o.traces
                    &&& final(self).logs@ == o.logs@
                    &&& final(self).labels@ == o.labels@
                    &&& final(self).counterexample == old(self).counterexample
                    &&& final(self).coverage.is_some() == (old(self).coverage.is_some()
                        || o.coverage.is_some())
                    &&& forall|a: Seq<u8>, pc: u64| #[trigger]
                        hits_of(final(self).coverage, a, pc) == sat_add(
                            hits_of(old(self).coverage, a, pc),
                            hits_of(o.coverage, a, pc),
                        )
                },
                FuzzOutcome::CounterExample(o) => {
                    &&& r matches Err(TestCaseError::Fail(m)) && m@ == revert_reason@
                    &&& final(self).counterexample == Some(o.counterexample)
                    &&& final(self).gas_by_case@ == old(self).gas_by_case@
                    &&& final(self).first_case == old(self).first_case
                    &&& final(self).traces == old(self).traces
                    &&& final(self).logs@ == old(self).logs@
                    &&& final(self).labels@ == old(self).labels@
                    &&& final(self).coverage == old(self).coverage
                },
            },
    {
        match outcome {
            FuzzOutcome::Case(o) => {
                self.gas_by_case.push((o.case.gas, o.case.stipend));
                if self.first_case.is_none() {
                    self.first_case = Some(o.case);
                }
                self.traces = o.traces;
                self.logs = o.logs;
                self.labels = o.labels;
                match o.coverage {
                    Some(c) => {
                        match self.coverage.take() {
                            Some(mut prev) => {
                                prev.merge(&c);
                                self.coverage = Some(prev);
                            },
                            None => {
                                proof {
                                    assert forall|a: Seq<u8>, pc: u64| #[trigger] c.count(a, pc) <= u64::MAX by {
                                        c.lemma_count_bounded(a, pc);
                                    }
                                }
                                self.coverage = Some(c);
                            },
                        }
                    },
                    None => {
                        proof {
                            if let Some(h) = &self.coverage {
                                assert forall|a: Seq<u8>, pc: u64| #[trigger] h.count(a, pc) <= u64::MAX by {
                                    h.lemma_count_bounded(a, pc);
                                }
                            }
                        }
                    },
                }
                Ok(())
            },
            FuzzOutcome::CounterExample(o) => {
                self.counterexample = Some(o.counterexample);
                Err(TestCaseError::Fail(revert_reason))
            },
        }
    }
}

/// What a session reports as its reason for how the runner ended.
pub open spec fn reason_of(run: RunResult, max_global_rejects: u32) -> Option<Seq<char>> {
    match run {
        RunResult::Passed => None,
        RunResult::Abort(m) => if m@ == too_many_global_rejects() {
            Some(message_of(FuzzError::TooManyRejects(max_global_rejects)))
        } else {
            Some(m@)
        },
        RunResult::Fail(m) => if m@.len() == 0 {
            None
        } else {
            Some(m@)
        },
    }
}

/// The text of an optional string.
pub open spec fn opt_view(s: Option<String>) -> Option<Seq<char>> {
    match s {
        Some(x) => Some(x@),
        None => None,
    }
}

impl<T: Clone> FuzzSession<T> {
    /// Reduces the session once the runner ended with `run`. The counter-example,
    /// on failure, is built from the stored failing call, not from the input
    /// the runner last tried; `args` are its decoded arguments.
    pub fn finish(self, run: RunResult, max_global_rejects: u32, args: Vec<String>) -> (r:
        FuzzTestResult<T>)
        ensures
            r.success == (run is Passed),
            r.gas_by_case@ == self.gas_by_case@,
            self.first_case is Some ==> r.first_case == self.first_case.unwrap(),
            self.first_case is None ==> r.first_case.calldata@.len() == 0 && r.first_case.gas == 0
                && r.first_case.stipend == 0,
            r.coverage == self.coverage,
            opt_view(r.reason) == reason_of(run, max_global_rejects),
            run is Passed ==> r.traces == self.traces,
            !(run is Passed) ==> r.traces.is_some() == (self.counterexample matches Some(ce)
                && ce.1.traces.is_some()),
            run is Passed ==> r.logs@ == self.logs@ && r.labeled_addresses@ == self.labels@,
            !(run is Passed) ==> match self.counterexample {
                Some(ce) => r.logs@ == ce.1.logs@ && r.labeled_addresses@ == ce.1.labels@,
                None => r.logs@.len() == 0 && r.labeled_addresses@.len() == 0,
            },
            !(run is Fail) ==> r.counterexample.is_none(),
            run is Fail ==> (r.counterexample matches Some(CounterExample::Single(b)) && {
                &&& b.sender.is_none()
                &&& b.addr.is_none()
                &&& b.signature.is_none()
                &&& b.contract_name.is_none()
                &&& b.args@ == args@
                &&& match self.counterexample {
                    Some(ce) => b.calldata@ == ce.0@ && b.traces == ce.1.traces,
                    None => b.calldata@.len() == 0 && b.traces.is_none(),
                }
            }),
    {
        let FuzzSession {
            first_case,
            gas_by_case,
            counterexample,
            traces,
            coverage,
            logs: case_logs,
            labels: case_labels,
        } = self;
        let (calldata, call) = match counterexample {
            Some(ce) => ce,
            None => (Vec::new(), RawCallResult::empty()),
        };
        let first_case = match first_case {
            Some(c) => c,
            None => FuzzCase { calldata: Vec::new(), gas: 0, stipend: 0 },
        };
        let success = match run {
            RunResult::Passed => true,
            _ => false,
        };
        let RawCallResult { logs, labels, traces: call_traces, .. } = call;
        let result_traces = if success {
            traces
        } else {
            clone_traces(&call_traces)
        };
        let (logs, labels) = if success {
            (case_logs, case_labels)
        } else {
            (logs, labels)
        };
        let mut result = FuzzTestResult {
            first_case,
            gas_by_case,
            success,
            reason: None,
            counterexample: None,
            logs,
            labeled_addresses: labels,
            traces: result_traces,
            coverage,
        };
        match run {
            RunResult::Passed => {},
            RunResult::Abort(m) => {
                let marker = "Too many global rejects".to_owned();
                if m == marker {
                    result.reason = Some(FuzzError::TooManyRejects(max_global_rejects).message());
                } else {
                    result.reason = Some(m);
                }
            },
            RunResult::Fail(m) => {
                let empty = String::new();
                if m == empty {
                    assert(m@.len() == 0);
                    result.reason = None;
                } else {
                    assert(m@.len() != 0) by {
                        if m@.len() == 0 {
                            assert(m@ =~= empty@);
                        }
                    }
                    result.reason = Some(m);
                }
                result.counterexample = Some(
                    CounterExample::Single(
                        BaseCounterExample {
                            sender: None,
                            addr: None,
                            signature: None,
                            contract_name: None,
                            traces: call_traces,
                            calldata,
                            args,
                        },
                    ),
                );
            },
        }
        result
    }
}

/// The hits of program counter `pc` of contract `a` over a run of cases,
/// added in order and stopping at the largest `u64`.
pub open spec fn summed_hits(added: Seq<Option<HitMaps>>, a: Seq<u8>, pc: u64) -> nat
    decreases added.len(),
{
    if added.len() == 0 {
        0
    } else {
        sat_add(summed_hits(added.drop_last(), a, pc), hits_of(added.last(), a, pc))
    }
}

/// Over a session that starts without coverage and records cases one after
/// another, each record adding the case's coverage as `record` states, the
/// coverage at the end is the sum of the cases' coverage.
pub proof fn lemma_coverage_is_summed(
    states: Seq<Option<HitMaps>>,
    added: Seq<Option<HitMaps>>,
    a: Seq<u8>,
    pc: u64,
)
    requires
        states.len() == added.len() + 1,
        states[0].is_none(),
        forall|i: int|
            0 <= i < added.len() ==> #[trigger] hits_of(states[i + 1], a, pc) == sat_add(
                hits_of(states[i], a, pc),
                hits_of(added[i], a, pc),
            ),
    ensures
        hits_of(states.last(), a, pc) == summed_hits(added, a, pc),
    decreases added.len(),
{
    if added.len() > 0 {
        let n = added.len() - 1;
        assert(hits_of(states[n + 1], a, pc) == sat_add(hits_of(states[n], a, pc), hits_of(added[n], a, pc)));
        lemma_coverage_is_summed(states.drop_last(), added.drop_last(), a, pc);
        assert(states.drop_last().last() == states[n]);
    }
}

/// On success the result keeps a trace exactly when the last case carried
/// one; when every case carries a trace, a trace is kept exactly when some
/// case was recorded.
pub proof fn lemma_trace_kept_on_success<T>(
    session: FuzzSession<T>,
    result: FuzzTestResult<T>,
    case_traces: Seq<Option<T>>,
)
    requires
        result.success,
        result.traces == session.traces,
        case_traces.len() == session.gas_by_case@.len(),
        case_traces.len() == 0 ==> session.traces.is_none(),
        case_traces.len() > 0 ==> session.traces == case_traces.last(),
        forall|i: int| 0 <= i < case_traces.len() ==> (#[trigger] case_traces[i]).is_some(),
    ensures
        result.traces.is_some() <==> session.gas_by_case@.len() > 0,
{
    if case_traces.len() > 0 {
        assert(case_traces[case_traces.len() - 1].is_some());
    }
}

} // verus!
