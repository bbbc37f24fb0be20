//! One fuzz iteration: what a call returned, and whether it is a case, a
//! rejected input or a counter-example.

use vstd::prelude::*;
use vstd::string::*;
use crate::cases::FuzzCase;
use crate::coverage::HitMaps;
use crate::dictionary::{
    absorbed, add_entries, seed_addresses, seed_words, AccountChange, AccountSnapshot,
    EvmFuzzState, FuzzDictionaryConfig, Log,
};

verus! {

/// What a contract returns when `vm.assume` rejected its input: the bytes of
/// "FOUNDRY::ASSUME" followed by zeros, 32 bytes in all.
pub const ASSUME_MAGIC_RETURN_CODE: [u8; 32] = [
    70, 79, 85, 78, 68, 82, 89, 58, 58, 65, 83, 83, 85, 77, 69, 0,
    0, 0, 0, 0, 0, 0, 0, 0, 0, 0, 0, 0, 0, 0, 0, 0,
];

/// A breakpoint set by a cheat code: its key and where it stands.
#[derive(Clone, Copy, Debug)]
pub struct Breakpoint {
    pub key: char,
    pub address: [u8; 20],
    pub pc: u64,
}

/// What the executor reports of one call.
pub struct RawCallResult<T> {
    /// The bytes the call returned.
    pub result: Vec<u8>,
    pub reverted: bool,
    /// Why the VM halted.
    pub exit_reason: u32,
    pub gas_used: u64,
    /// Gas charged before the call began.
    pub stipend: u64,
    pub logs: Vec<Log>,
    /// The storage the call wrote; absent when the executor kept no account.
    pub state_changeset: Option<Vec<AccountChange>>,
    pub traces: Option<T>,
    pub coverage: Option<HitMaps>,
    /// Addresses labelled by cheat codes.
    pub labels: Vec<([u8; 20], String)>,
    pub breakpoints: Vec<Breakpoint>,
}

impl<T> RawCallResult<T> {
    /// A call that returned nothing and recorded nothing.
    pub fn empty() -> (r: RawCallResult<T>)
        ensures
            r.result@.len() == 0,
            !r.reverted,
            r.gas_used == 0,
            r.stipend == 0,
            r.logs@.len() == 0,
            r.state_changeset.is_none(),
            r.traces.is_none(),
            r.coverage.is_none(),
            r.labels@.len() == 0,
            r.breakpoints@.len() == 0,
    {
        RawCallResult {
            result: Vec::new(),
            reverted: false,
            exit_reason: 0,
            gas_used: 0,
            stipend: 0,
            logs: Vec::new(),
            state_changeset: None,
            traces: None,
            coverage: None,
            labels: Vec::new(),
            breakpoints: Vec::new(),
        }
    }
}

/// The errors of a fuzz session.
#[derive(Clone, Copy, Debug, PartialEq, Eq, Structural)]
pub enum FuzzError {
    UnknownContract,
    UnknownFunction,
    FailedDecodeInput,
    FailedContractCall,
    EmptyChangeset,
    AssumeReject,
    TooManyRejects(u32),
}

pub open spec fn digit_char(d: nat) -> char {
    if d == 0 {
        '0'
    } else if d == 1 {
        '1'
    } else if d == 2 {
        '2'
    } else if d == 3 {
        '3'
    } else if d == 4 {
        '4'
    } else if d == 5 {
        '5'
    } else if d == 6 {
        '6'
    } else if d == 7 {
        '7'
    } else if d == 8 {
        '8'
    } else {
        '9'
    }
}

/// The decimal digits of `n`, without leading zeros.
pub open spec fn decimal(n: nat) -> Seq<char>
    decreases n,
{
    if n < 10 {
        seq![digit_char(n)]
    } else {
        decimal(n / 10).push(digit_char(n % 10))
    }
}

/// The text of one decimal digit.
fn digit_text(d: u32) -> (r: &'static str)
    requires
        d < 10,
    ensures
        r@ == seq![digit_char(d as nat)],
{
    proof {
        reveal_strlit("0");
        reveal_strlit("1");
        reveal_strlit("2");
        reveal_strlit("3");
        reveal_strlit("4");
        reveal_strlit("5");
        reveal_strlit("6");
        reveal_strlit("7");
        reveal_strlit("8");
        reveal_strlit("9");
    }
    if d == 0 {
        "0"
    } else if d == 1 {
        "1"
    } else if d == 2 {
        "2"
    } else if d == 3 {
        "3"
    } else if d == 4 {
        "4"
    } else if d == 5 {
        "5"
    } else if d == 6 {
        "6"
    } else if d == 7 {
        "7"
    } else if d == 8 {
        "8"
    } else {
        "9"
    }
}

/// Appends the decimal digits of `n` to `s`.
fn append_decimal(s: &mut String, n: u32)
    ensures
        final(s)@ == old(s)@ + decimal(n as nat),
    decreases n,
{
    if n >= 10 {
        append_decimal(s, n / 10);
    }
    let t = digit_text(n % 10);
    s.append(t);
    proof {
        if n >= 10 {
            assert(decimal(n as nat) == decimal((n / 10) as nat).push(digit_char((n % 10) as nat)));
        } else {
            assert(n % 10 == n);
        }
        assert(final(s)@ =~= old(s)@ + decimal(n as nat));
    }
}

/// The text that reports an error.
pub open spec fn message_of(e: FuzzError) -> Seq<char> {
    match e {
        FuzzError::UnknownContract => "unknown contract"@,
        FuzzError::UnknownFunction => "unknown function"@,
        FuzzError::FailedDecodeInput => "failed to decode input"@,
        FuzzError::FailedContractCall => "failed contract call"@,
        FuzzError::EmptyChangeset => "empty changeset"@,
        FuzzError::AssumeReject => "assume rejected"@,
        FuzzError::TooManyRejects(n) => "too many rejects (n = "@ + decimal(n as nat) + ")"@,
    }
}

impl FuzzError {
    pub fn message(&self) -> (r: String)
        ensures
            r@ == message_of(*self),
    {
        match self {
            FuzzError::UnknownContract => "unknown contract".to_owned(),
            FuzzError::UnknownFunction => "unknown function".to_owned(),
            FuzzError::FailedDecodeInput => "failed to decode input".to_owned(),
            FuzzError::FailedContractCall => "failed contract call".to_owned(),
            FuzzError::EmptyChangeset => "empty changeset".to_owned(),
            FuzzError::AssumeReject => "assume rejected".to_owned(),
            FuzzError::TooManyRejects(n) => {
                let mut s = "too many rejects (n = ".to_owned();
                append_decimal(&mut s, *n);
                s.append(")");
                s
            },
        }
    }
}

/// What an iteration hands the property runner when it is not a case.
pub enum TestCaseError {
    /// The input refutes the property; the runner starts shrinking.
    Fail(String),
    /// The input is discarded and another is drawn.
    Reject(String),
}

/// A call that met the expectation.
pub struct CaseOutcome<T> {
    pub case: FuzzCase,
    pub logs: Vec<Log>,
    pub labels: Vec<([u8; 20], String)>,
    pub traces: Option<T>,
    pub coverage: Option<HitMaps>,
    pub breakpoints: Vec<Breakpoint>,
}

/// A call that did not meet the expectation: its input and what it returned.
pub struct CounterExampleOutcome<T> {
    pub exit_reason: u32,
    pub counterexample: (Vec<u8>, RawCallResult<T>),
}

pub enum FuzzOutcome<T> {
    Case(CaseOutcome<T>),
    CounterExample(CounterExampleOutcome<T>),
}

/// Whether the bytes are the assume marker.
pub open spec fn is_assume_marker(b: Seq<u8>) -> bool {
    b == ASSUME_MAGIC_RETURN_CODE@
}

/// Whether a call met the expectation: it passed (no revert, no failed
/// assertion) exactly when it was not expected to fail.
pub open spec fn expectation_met(reverted: bool, failed_assertion: bool, should_fail: bool) -> bool {
    (!reverted && !failed_assertion) != should_fail
}

/// Whether a call met the expectation.
pub fn is_success(reverted: bool, failed_assertion: bool, should_fail: bool) -> (r: bool)
    ensures
        r == expectation_met(reverted, failed_assertion, should_fail),
{
    let passed = !reverted && !failed_assertion;
    passed != should_fail
}

/// Whether the bytes are the assume marker.
pub fn is_assume_reject(b: &Vec<u8>) -> (r: bool)
    ensures
        r == is_assume_marker(b@),
{
    let marker = ASSUME_MAGIC_RETURN_CODE;
    crate::dictionary::bytes_eq(b.as_slice(), marker.as_slice())
}

/// The iteration fails with the message of `e`.
pub open spec fn fails_with<T>(r: Result<FuzzOutcome<T>, TestCaseError>, e: FuzzError) -> bool {
    match r {
        Err(TestCaseError::Fail(m)) => m@ == message_of(e),
        _ => false,
    }
}

/// What an iteration yields for a call that recorded its changeset: a
/// rejection on the assume marker, else a case when the call met the
/// expectation and a counter-example when it did not.
pub open spec fn classified<T>(
    calldata: Seq<u8>,
    c: RawCallResult<T>,
    failed_assertion: bool,
    should_fail: bool,
    r: Result<FuzzOutcome<T>, TestCaseError>,
) -> bool {
    if is_assume_marker(c.result@) {
        match r {
            Err(TestCaseError::Reject(m)) => m@ == message_of(FuzzError::AssumeReject),
            _ => false,
        }
    } else if expectation_met(c.reverted, failed_assertion, should_fail) {
        match r {
            Ok(FuzzOutcome::Case(o)) => {
                &&& o.case.calldata@ == calldata
                &&& o.case.gas == c.gas_used
                &&& o.case.stipend == c.stipend
                &&& o.logs@ == c.logs@
                &&& o.labels@ == c.labels@
                &&& o.traces == c.traces
                &&& o.coverage == c.coverage
                &&& o.breakpoints@ == c.breakpoints@
            },
            _ => false,
        }
    } else {
        match r {
            Ok(FuzzOutcome::CounterExample(o)) => {
                &&& o.exit_reason == c.exit_reason
                &&& o.counterexample.0@ == calldata
                &&& o.counterexample.1 == c
            },
            _ => false,
        }
    }
}

/// Runs fuzz iterations on behalf of a sender, with a dictionary
/// configuration.
pub struct FuzzedExecutor {
    /// The account that calls the test.
    pub sender: [u8; 20],
    pub config: FuzzDictionaryConfig,
}

impl FuzzedExecutor {
    pub fn new(sender: [u8; 20], config: FuzzDictionaryConfig) -> (r: FuzzedExecutor)
        ensures
            r.sender == sender,
            r.config == config,
    {
        FuzzedExecutor { sender, config }
    }

    /// The dictionary a session starts from, seeded from the accounts of the
    /// active backend.
    pub fn build_fuzz_state(&self, accounts: &Vec<AccountSnapshot>) -> (r: EvmFuzzState)
        ensures
            r.wf(),
            r@.max_values == self.config.max_fuzz_dictionary_values,
            r@.max_addresses == self.config.max_fuzz_dictionary_addresses,
            r@.values == add_entries(
                Seq::empty(),
                self.config.max_fuzz_dictionary_values as nat,
                seed_words(accounts@, self.config),
            ),
            r@.addresses == add_entries(
                Seq::empty(),
                self.config.max_fuzz_dictionary_addresses as nat,
                seed_addresses(accounts@),
            ),
    {
        EvmFuzzState::build_initial_state(accounts, &self.config)
    }

    /// Classifies one call of `calldata`. `call` is what the executor returned,
    /// `None` when it could not make the call; `failed_assertion` is whether the
    /// executor saw an assertion of the test fail.
    ///
    /// A call without a changeset fails the iteration. Otherwise its logs and
    /// storage writes go into the dictionary first, whatever follows; then the
    /// assume marker rejects the input, and otherwise the call is a case when it
    /// met the expectation and a counter-example when it did not.
    pub fn single_fuzz<T>(
        &self,
        state: &mut EvmFuzzState,
        should_fail: bool,
        calldata: Vec<u8>,
        call: Option<RawCallResult<T>>,
        failed_assertion: bool,
    ) -> (r: Result<FuzzOutcome<T>, TestCaseError>)
        requires
            old(state).wf(),
        ensures
            final(state).wf(),
            call.is_none() ==> final(state)@ == old(state)@ && fails_with(
                r,
                FuzzError::FailedContractCall,
            ),
            call.is_some() && call.unwrap().state_changeset.is_none() ==> final(state)@ == old(state)@
                && fails_with(r, FuzzError::EmptyChangeset),
            call.is_some() && call.unwrap().state_changeset.is_some() ==> absorbed(
                old(state)@,
                final(state)@,
                call.unwrap().logs@,
                call.unwrap().state_changeset.unwrap()@,
                self.config.include_storage,
            ) && classified(calldata@, call.unwrap(), failed_assertion, should_fail, r),
    {
        let call = match call {
            Some(c) => c,
            None => {
                return Err(TestCaseError::Fail(FuzzError::FailedContractCall.message()));
            },
        };
        match &call.state_changeset {
            Some(changes) => {
                state.collect_state_from_call(&call.logs, changes, &self.config);
            },
            None => {
                return Err(TestCaseError::Fail(FuzzError::EmptyChangeset.message()));
            },
        }
        if is_assume_reject(&call.result) {
            return Err(TestCaseError::Reject(FuzzError::AssumeReject.message()));
        }
        if is_success(call.reverted, failed_assertion, should_fail) {
            let RawCallResult { gas_used, stipend, traces, coverage, breakpoints, logs, labels, .. } = call;
            Ok(
                FuzzOutcome::Case(
                    CaseOutcome {
                        case: FuzzCase { calldata, gas: gas_used, stipend },
                        logs,
                        labels,
                        traces,
                        coverage,
                        breakpoints,
                    },
                ),
            )
        } else {
            let exit_reason = call.exit_reason;
            Ok(
                FuzzOutcome::CounterExample(
                    CounterExampleOutcome { exit_reason, counterexample: (calldata, call) },
                ),
            )
        }
    }
}

/// A failing input fails again: classifying once more the call that gave a
/// counter-example, with the same input, assertion outcome and expectation, gives a
/// counter-example for the same input.
pub proof fn lemma_counterexample_reproduces<T>(
    calldata: Seq<u8>,
    c: RawCallResult<T>,
    failed_assertion: bool,
    should_fail: bool,
    first: Result<FuzzOutcome<T>, TestCaseError>,
    again: Result<FuzzOutcome<T>, TestCaseError>,
)
    requires
        classified(calldata, c, failed_assertion, should_fail, first),
        first matches Ok(FuzzOutcome::CounterExample(_)),
        classified(calldata, c, failed_assertion, should_fail, again),
    ensures
        again matches Ok(FuzzOutcome::CounterExample(o)) && o.counterexample.0@ == calldata,
{
}

/// A call that reverts is a case when failure is expected and a
/// counter-example when it is not.
pub proof fn lemma_revert_meets_expectation<T>(
    calldata: Seq<u8>,
    c: RawCallResult<T>,
    failed_assertion: bool,
    expected_fail: Result<FuzzOutcome<T>, TestCaseError>,
    expected_pass: Result<FuzzOutcome<T>, TestCaseError>,
)
    requires
        c.reverted,
        !is_assume_marker(c.result@),
        classified(calldata, c, failed_assertion, true, expected_fail),
        classified(calldata, c, failed_assertion, false, expected_pass),
    ensures
        expected_fail matches Ok(FuzzOutcome::Case(_)),
        expected_pass matches Ok(FuzzOutcome::CounterExample(_)),
{
}

/// A call that returns the assume marker is rejected, whatever was
/// expected and whether an assertion failed: it is neither a case nor a
/// counter-example.
pub proof fn lemma_assume_marker_rejects<T>(
    calldata: Seq<u8>,
    c: RawCallResult<T>,
    failed_assertion: bool,
    should_fail: bool,
    r: Result<FuzzOutcome<T>, TestCaseError>,
)
    requires
        is_assume_marker(c.result@),
        classified(calldata, c, failed_assertion, should_fail, r),
    ensures
        r matches Err(TestCaseError::Reject(m)) && m@ == message_of(FuzzError::AssumeReject),
{
}

} // verus!
