use evm_fuzz::cases::{FuzzCase, FuzzedCases};
use evm_fuzz::counterexample::ContractAbi;
use evm_fuzz::coverage::HitMaps;
use evm_fuzz::dictionary::{
    AccountChange, AccountSnapshot, EvmFuzzState, FuzzDictionaryConfig, Log, StorageChange,
};
use evm_fuzz::outcome::{
    is_success, FuzzError, FuzzedExecutor, FuzzOutcome, RawCallResult, TestCaseError,
    ASSUME_MAGIC_RETURN_CODE,
};
use evm_fuzz::session::{BaseCounterExample, CounterExample, FuzzSession, FuzzTestResult, RunResult};
use evm_fuzz::stats::{mean, median_sorted, sort_values};
use evm_fuzz::strategy::{strategy_weights, StrategyKind};

fn case(gas: u64, stipend: u64) -> FuzzCase {
    FuzzCase::new(vec![1, 2, 3, 4], gas, stipend)
}

fn config(include_storage: bool, include_push_bytes: bool, max: usize) -> FuzzDictionaryConfig {
    FuzzDictionaryConfig {
        dictionary_weight: 40,
        include_storage,
        include_push_bytes,
        max_fuzz_dictionary_values: max,
        max_fuzz_dictionary_addresses: max,
    }
}

fn word(b: u8) -> [u8; 32] {
    let mut w = [0u8; 32];
    w[31] = b;
    w
}

fn call(result: Vec<u8>, reverted: bool, changes: Option<Vec<AccountChange>>) -> RawCallResult<String> {
    let mut c = RawCallResult::empty();
    c.result = result;
    c.reverted = reverted;
    c.gas_used = 30_000;
    c.stipend = 21_000;
    c.state_changeset = changes;
    c.traces = Some("trace".to_string());
    c
}

fn one_change() -> Vec<AccountChange> {
    vec![AccountChange {
        address: [7u8; 20],
        storage: vec![StorageChange { slot: word(1), value: word(42) }],
    }]
}

fn result_with(pairs: Vec<(u64, u64)>) -> FuzzTestResult<String> {
    FuzzTestResult {
        first_case: case(0, 0),
        gas_by_case: pairs,
        success: true,
        reason: None,
        counterexample: None,
        logs: vec![],
        labeled_addresses: vec![],
        traces: None,
        coverage: None,
    }
}

#[test]
fn fuzzed_cases_are_sorted_by_gas() {
    let cases = FuzzedCases::new(vec![case(300, 10), case(100, 10), case(200, 10)]);
    let gas: Vec<u64> = cases.cases().iter().map(|c| c.gas).collect();
    assert_eq!(gas, vec![100, 200, 300]);
    assert_eq!(cases.lowest().unwrap().gas, 100);
    assert_eq!(cases.highest().unwrap().gas, 300);
    assert_eq!(cases.last().unwrap().gas, 300);
    assert_eq!(cases.into_cases().len(), 3);
}

#[test]
fn fuzzed_cases_gas_figures() {
    let cases = FuzzedCases::new(vec![case(300, 50), case(100, 10), case(200, 20)]);
    assert_eq!(cases.highest_gas(true), 300);
    assert_eq!(cases.highest_gas(false), 250);
    assert_eq!(cases.lowest_gas(), 100);
    assert_eq!(cases.gas_values(false), vec![90, 180, 250]);
    assert_eq!(cases.median_gas(true), 200);
    assert_eq!(cases.mean_gas(true), 200);
    assert_eq!(cases.mean_gas(false), 173);
}

#[test]
fn fuzzed_cases_empty() {
    let cases = FuzzedCases::new(vec![]);
    assert!(cases.highest().is_none());
    assert!(cases.lowest().is_none());
    assert_eq!(cases.highest_gas(false), 0);
    assert_eq!(cases.lowest_gas(), 0);
    assert_eq!(cases.median_gas(true), 0);
    assert_eq!(cases.mean_gas(false), 0);
}

#[test]
fn gas_values_saturate_at_zero() {
    let r = result_with(vec![(10, 30), (50, 20)]);
    assert_eq!(r.gas_values(false), vec![0, 30]);
    assert_eq!(r.gas_values(true), vec![10, 50]);
}

#[test]
fn median_is_upper_middle_at_even_sizes() {
    let r = result_with(vec![(40, 0), (10, 0), (30, 0), (20, 0)]);
    assert_eq!(r.median_gas(true), 30);
    assert_eq!(r.mean_gas(true), 25);
}

#[test]
fn median_and_mean_of_no_cases_are_zero() {
    let r = result_with(vec![]);
    assert_eq!(r.median_gas(true), 0);
    assert_eq!(r.mean_gas(true), 0);
    assert_eq!(r.median_gas(false), 0);
    assert_eq!(r.mean_gas(false), 0);
}

#[test]
fn mean_does_not_overflow() {
    let v = vec![u64::MAX, u64::MAX, u64::MAX - 2];
    assert_eq!(mean(&v), u64::MAX - 1);
    let mut w = vec![5, 1, 3];
    sort_values(&mut w);
    assert_eq!(w, vec![1, 3, 5]);
    assert_eq!(median_sorted(&w), 3);
}

#[test]
fn dictionary_absorbs_logs_and_storage() {
    let cfg = config(true, false, 100);
    let mut d = EvmFuzzState::new(&cfg);
    let mut data = vec![0u8; 40];
    data[0] = 9;
    data[39] = 8;
    let logs = vec![Log { address: [1u8; 20], topics: vec![word(5)], data }];
    d.collect_state_from_call(&logs, &one_change(), &cfg);
    assert!(d.contains_value(&word(5)));
    assert!(d.contains_value(&word(1)));
    assert!(d.contains_value(&word(42)));
    let mut first = [0u8; 32];
    first[0] = 9;
    assert!(d.contains_value(&first));
    let mut second = [0u8; 32];
    second[7] = 8;
    assert!(d.contains_value(&second));
    assert!(d.contains_address(&[7u8; 20]));
    let mut padded = [0u8; 32];
    padded[12..].copy_from_slice(&[7u8; 20]);
    assert!(d.contains_value(&padded));
    assert_eq!(d.len(), 7);
}

#[test]
fn dictionary_skips_storage_when_told() {
    let cfg = config(false, false, 100);
    let mut d = EvmFuzzState::new(&cfg);
    d.collect_state_from_call(&vec![], &one_change(), &cfg);
    assert!(!d.contains_value(&word(42)));
    assert!(d.contains_address(&[7u8; 20]));
}

#[test]
fn dictionary_growth_is_monotone_and_bounded() {
    let cfg = config(true, false, 2);
    let mut d = EvmFuzzState::new(&cfg);
    let logs = vec![Log { address: [1u8; 20], topics: vec![word(1), word(2), word(3)], data: vec![] }];
    let before = d.len();
    d.collect_state_from_call(&logs, &vec![], &cfg);
    assert!(d.len() >= before);
    assert_eq!(d.len(), 2);
    let before = d.len();
    d.collect_state_from_call(&logs, &vec![], &cfg);
    assert_eq!(d.len(), before);
}

#[test]
fn dictionary_keeps_values_unique() {
    let cfg = config(true, false, 10);
    let mut d = EvmFuzzState::new(&cfg);
    d.insert_value(word(3));
    d.insert_value(word(3));
    assert_eq!(d.len(), 1);
    assert_eq!(d.sample_value(5), Some(word(3)));
    assert_eq!(d.sample_address(0), None);
}

#[test]
fn initial_state_collects_push_bytes() {
    let cfg = config(true, true, 100);
    // PUSH2 0x1234, PUSH1 0x05, STOP, PUSH3 with a truncated operand
    let code = vec![0x61, 0x12, 0x34, 0x60, 0x05, 0x00, 0x62, 0xff];
    let accounts = vec![AccountSnapshot {
        address: [3u8; 20],
        code,
        storage: vec![StorageChange { slot: word(9), value: word(10) }],
    }];
    let d = FuzzedExecutor::new([0u8; 20], cfg.clone()).build_fuzz_state(&accounts);
    let mut w = [0u8; 32];
    w[30] = 0x12;
    w[31] = 0x34;
    assert!(d.contains_value(&w));
    assert!(d.contains_value(&word(5)));
    assert!(d.contains_value(&word(9)));
    assert!(d.contains_value(&word(10)));
    assert!(d.contains_address(&[3u8; 20]));
    assert_eq!(d.len(), 6);
    let without = EvmFuzzState::build_initial_state(&accounts, &config(false, false, 100));
    assert_eq!(without.len(), 2);
}

#[test]
fn failed_contract_call_fails_the_iteration() {
    let cfg = config(true, false, 100);
    let mut d = EvmFuzzState::new(&cfg);
    let r = FuzzedExecutor::new([0u8; 20], cfg.clone()).single_fuzz::<String>(&mut d, false, vec![0, 0, 0, 1], None, false);
    assert!(matches!(r, Err(TestCaseError::Fail(ref m)) if m == "failed contract call"));
    assert_eq!(d.len(), 0);
}

#[test]
fn missing_changeset_fails_the_iteration() {
    let cfg = config(true, false, 100);
    let mut d = EvmFuzzState::new(&cfg);
    let r = FuzzedExecutor::new([0u8; 20], cfg.clone()).single_fuzz(&mut d, false, vec![0, 0, 0, 1], Some(call(vec![], false, None)), false);
    assert!(matches!(r, Err(TestCaseError::Fail(ref m)) if m == "empty changeset"));
}

#[test]
fn assume_marker_rejects_after_harvesting() {
    let cfg = config(true, false, 100);
    let mut d = EvmFuzzState::new(&cfg);
    let c = call(ASSUME_MAGIC_RETURN_CODE.to_vec(), true, Some(one_change()));
    let r = FuzzedExecutor::new([0u8; 20], cfg.clone()).single_fuzz(&mut d, false, vec![0, 0, 0, 1], Some(c), false);
    assert!(matches!(r, Err(TestCaseError::Reject(ref m)) if m == "assume rejected"));
    assert!(d.contains_value(&word(42)));
    let mut short = ASSUME_MAGIC_RETURN_CODE.to_vec();
    short.truncate(15);
    let r = FuzzedExecutor::new([0u8; 20], cfg.clone()).single_fuzz(&mut d, false, vec![0, 0, 0, 1], Some(call(short, false, Some(vec![]))), false);
    assert!(matches!(r, Ok(FuzzOutcome::Case(_))));
}

#[test]
fn revert_is_a_case_when_failure_is_expected() {
    let cfg = config(true, false, 100);
    let mut d = EvmFuzzState::new(&cfg);
    let r = FuzzedExecutor::new([0u8; 20], cfg.clone()).single_fuzz(&mut d, true, vec![9, 9, 9, 9], Some(call(vec![], true, Some(vec![]))), false);
    match r {
        Ok(FuzzOutcome::Case(o)) => {
            assert_eq!(o.case.gas, 30_000);
            assert_eq!(o.case.stipend, 21_000);
            assert_eq!(o.case.calldata, vec![9, 9, 9, 9]);
        }
        _ => panic!("expected a case"),
    }
    let r = FuzzedExecutor::new([0u8; 20], cfg.clone()).single_fuzz(&mut d, false, vec![9, 9, 9, 9], Some(call(vec![], true, Some(vec![]))), false);
    match r {
        Ok(FuzzOutcome::CounterExample(o)) => assert_eq!(o.counterexample.0, vec![9, 9, 9, 9]),
        _ => panic!("expected a counter-example"),
    }
}

#[test]
fn expectation_truth_table() {
    assert!(is_success(false, false, false));
    assert!(!is_success(true, false, false));
    assert!(!is_success(false, true, false));
    assert!(is_success(true, false, true));
    assert!(!is_success(false, false, true));
}

fn run_iteration(
    session: &mut FuzzSession<String>,
    d: &mut EvmFuzzState,
    cfg: &FuzzDictionaryConfig,
    should_fail: bool,
    calldata: Vec<u8>,
    c: RawCallResult<String>,
) -> Result<(), TestCaseError> {
    let outcome = FuzzedExecutor::new([0u8; 20], cfg.clone()).single_fuzz(d, should_fail, calldata, Some(c), false)?;
    session.record(outcome, "revert".to_string())
}

#[test]
fn s1_failing_input_is_the_counterexample() {
    let cfg = config(true, false, 100);
    let mut d = EvmFuzzState::new(&cfg);
    let mut session = FuzzSession::new();
    assert!(run_iteration(&mut session, &mut d, &cfg, false, vec![0, 0, 0, 1, 3], call(vec![], false, Some(vec![]))).is_ok());
    assert!(run_iteration(&mut session, &mut d, &cfg, false, vec![0, 0, 0, 1, 12], call(vec![], true, Some(vec![]))).is_err());
    let r = session.finish(RunResult::Fail("revert".to_string()), 100, vec!["12".to_string()]);
    assert!(!r.success);
    assert_eq!(r.reason, Some("revert".to_string()));
    assert_eq!(r.first_case.calldata, vec![0, 0, 0, 1, 3]);
    match r.counterexample {
        Some(CounterExample::Single(b)) => {
            assert_eq!(b.calldata, vec![0, 0, 0, 1, 12]);
            assert_eq!(b.args, vec!["12".to_string()]);
            assert!(b.traces.is_some());
        }
        _ => panic!("expected a counter-example"),
    }
    assert!(r.traces.is_some());
}

#[test]
fn s2_always_reverting_with_expected_failure_succeeds() {
    let cfg = config(true, false, 100);
    let mut d = EvmFuzzState::new(&cfg);
    let mut session = FuzzSession::new();
    for i in 0..5u8 {
        assert!(run_iteration(&mut session, &mut d, &cfg, true, vec![0, 0, 0, 2, i], call(vec![], true, Some(vec![]))).is_ok());
    }
    let r = session.finish(RunResult::Passed, 100, vec![]);
    assert!(r.success);
    assert_eq!(r.gas_by_case.len(), 5);
    assert!(r.counterexample.is_none());
    assert!(r.reason.is_none());
    assert_eq!(r.traces, Some("trace".to_string()));
}

#[test]
fn s4_noop_statistics() {
    let cfg = config(true, false, 100);
    let mut d = EvmFuzzState::new(&cfg);
    let mut session = FuzzSession::new();
    for _ in 0..3 {
        assert!(run_iteration(&mut session, &mut d, &cfg, false, vec![0, 0, 0, 3], call(vec![], false, Some(vec![]))).is_ok());
    }
    let r = session.finish(RunResult::Passed, 100, vec![]);
    assert!(r.success);
    assert_eq!(r.median_gas(true), 30_000);
    assert_eq!(r.mean_gas(false), 9_000);
    assert!(r.counterexample.is_none());
}

#[test]
fn s5_missing_changeset_fails_the_session() {
    let cfg = config(true, false, 100);
    let mut d = EvmFuzzState::new(&cfg);
    let session: FuzzSession<String> = FuzzSession::new();
    let r = FuzzedExecutor::new([0u8; 20], cfg.clone()).single_fuzz(&mut d, false, vec![0, 0, 0, 1], Some(call(vec![], false, None)), false);
    let reason = match r {
        Err(TestCaseError::Fail(m)) => m,
        _ => panic!("expected a failure"),
    };
    let r = session.finish(RunResult::Fail(reason), 100, vec![]);
    assert!(!r.success);
    assert_eq!(r.reason, Some("empty changeset".to_string()));
    match r.counterexample {
        Some(CounterExample::Single(b)) => {
            assert!(b.args.is_empty());
            assert!(b.calldata.is_empty());
        }
        _ => panic!("expected a counter-example"),
    }
}

#[test]
fn s6_rejections_are_not_recorded_and_last_failure_is_kept() {
    let cfg = config(true, false, 100);
    let mut d = EvmFuzzState::new(&cfg);
    let mut session = FuzzSession::new();
    let rejected = run_iteration(&mut session, &mut d, &cfg, false, vec![1, 1, 1, 1], call(ASSUME_MAGIC_RETURN_CODE.to_vec(), false, Some(vec![])));
    assert!(matches!(rejected, Err(TestCaseError::Reject(_))));
    assert!(session.gas_by_case.is_empty());
    assert!(session.counterexample.is_none());
    assert!(run_iteration(&mut session, &mut d, &cfg, false, vec![2, 2, 2, 2, 200], call(vec![], true, Some(vec![]))).is_err());
    assert!(run_iteration(&mut session, &mut d, &cfg, false, vec![2, 2, 2, 2, 7], call(vec![], true, Some(vec![]))).is_err());
    assert!(run_iteration(&mut session, &mut d, &cfg, false, vec![1, 1, 1, 1], call(ASSUME_MAGIC_RETURN_CODE.to_vec(), false, Some(vec![]))).is_err());
    let r = session.finish(RunResult::Fail(String::new()), 100, vec![]);
    assert!(r.reason.is_none());
    assert!(r.gas_by_case.is_empty());
    match r.counterexample {
        Some(CounterExample::Single(b)) => assert_eq!(b.calldata, vec![2, 2, 2, 2, 7]),
        _ => panic!("expected a counter-example"),
    }
}

#[test]
fn too_many_rejects_reason() {
    let session: FuzzSession<String> = FuzzSession::new();
    let r = session.finish(RunResult::Abort("Too many global rejects".to_string()), 65536, vec![]);
    assert!(!r.success);
    assert_eq!(r.reason, Some("too many rejects (n = 65536)".to_string()));
    assert!(r.counterexample.is_none());
    let session: FuzzSession<String> = FuzzSession::new();
    let r = session.finish(RunResult::Abort("timeout".to_string()), 65536, vec![]);
    assert_eq!(r.reason, Some("timeout".to_string()));
    assert!(r.traces.is_none());
}

#[test]
fn coverage_is_summed_over_cases() {
    let cfg = config(true, false, 100);
    let mut d = EvmFuzzState::new(&cfg);
    let mut session = FuzzSession::new();
    for n in [2u64, 3u64] {
        let mut c = call(vec![], false, Some(vec![]));
        let mut h = HitMaps::new();
        h.record([1u8; 20], 10, n);
        h.record([1u8; 20], 11, 1);
        c.coverage = Some(h);
        assert!(run_iteration(&mut session, &mut d, &cfg, false, vec![0, 0, 0, 0], c).is_ok());
    }
    assert!(run_iteration(&mut session, &mut d, &cfg, false, vec![0, 0, 0, 0], call(vec![], false, Some(vec![]))).is_ok());
    let mut expected = HitMaps::new();
    expected.record([1u8; 20], 10, 5);
    expected.record([1u8; 20], 11, 2);
    let got = session.coverage.clone().unwrap();
    assert_eq!(format!("{:?}", got), format!("{:?}", expected));
}

#[test]
fn hit_counts_saturate() {
    let mut h = HitMaps::new();
    h.record([1u8; 20], 1, u64::MAX - 1);
    h.record([1u8; 20], 1, 5);
    let mut e = HitMaps::new();
    e.record([1u8; 20], 1, u64::MAX);
    assert_eq!(format!("{:?}", h), format!("{:?}", e));
}

#[test]
fn weights_at_the_bounds() {
    assert_eq!(strategy_weights(0), vec![(100, StrategyKind::Uniform)]);
    assert_eq!(strategy_weights(100), vec![(100, StrategyKind::Dictionary)]);
    assert_eq!(strategy_weights(150), vec![(100, StrategyKind::Dictionary)]);
    assert_eq!(
        strategy_weights(30),
        vec![(70, StrategyKind::Uniform), (30, StrategyKind::Dictionary)]
    );
}

fn contracts() -> Vec<ContractAbi> {
    vec![ContractAbi {
        address: [0xaa; 20],
        name: "Token".to_string(),
        functions: vec!["approve(address,uint256)".to_string(), "transfer(address,uint256)".to_string()],
    }]
}

#[test]
fn create_finds_the_function_by_selector() {
    let calldata = vec![0xa9, 0x05, 0x9c, 0xbb, 0, 1];
    let b = BaseCounterExample::<String>::create([0x11; 20], [0xaa; 20], &calldata, &contracts(), None, Some(vec!["1".to_string(), "2".to_string()])).unwrap();
    assert_eq!(b.signature, Some("transfer(address,uint256)".to_string()));
    assert_eq!(b.contract_name, Some("Token".to_string()));
    let text = b.to_display_string();
    assert_eq!(
        text,
        format!(
            "sender=0x{} addr=[Token]0x{} calldata=transfer(address,uint256), args=[1, 2]",
            "11".repeat(20),
            "aa".repeat(20)
        )
    );
}

#[test]
fn create_errors() {
    let calldata = vec![0xa9, 0x05, 0x9c, 0xbb];
    let r = BaseCounterExample::<String>::create([0x11; 20], [0xbb; 20], &calldata, &contracts(), None, Some(vec![]));
    assert!(matches!(r, Err(FuzzError::UnknownContract)));
    let r = BaseCounterExample::<String>::create([0x11; 20], [0xaa; 20], &vec![1, 2, 3, 4], &contracts(), None, Some(vec![]));
    assert!(matches!(r, Err(FuzzError::UnknownFunction)));
    let r = BaseCounterExample::<String>::create([0x11; 20], [0xaa; 20], &calldata, &contracts(), None, None);
    assert!(matches!(r, Err(FuzzError::FailedDecodeInput)));
}

#[test]
fn display_without_signature_shows_hex_calldata() {
    let b: BaseCounterExample<String> = BaseCounterExample {
        sender: None,
        addr: None,
        calldata: vec![0xde, 0xad, 0x0f],
        signature: None,
        contract_name: None,
        traces: None,
        args: vec![],
    };
    assert_eq!(b.to_display_string(), "calldata=0xdead0f, args=[]");
}

#[test]
fn error_messages() {
    assert_eq!(FuzzError::EmptyChangeset.message(), "empty changeset");
    assert_eq!(FuzzError::FailedContractCall.message(), "failed contract call");
    assert_eq!(FuzzError::AssumeReject.message(), "assume rejected");
    assert_eq!(FuzzError::TooManyRejects(7).message(), "too many rejects (n = 7)");
    assert_eq!(FuzzError::UnknownContract.message(), "unknown contract");
    assert_eq!(FuzzError::UnknownFunction.message(), "unknown function");
    assert_eq!(FuzzError::FailedDecodeInput.message(), "failed to decode input");
}

#[test]
fn success_keeps_the_last_case_logs() {
    let cfg = config(true, false, 100);
    let mut d = EvmFuzzState::new(&cfg);
    let mut session = FuzzSession::new();
    for t in [1u8, 2u8] {
        let mut c = call(vec![], false, Some(vec![]));
        c.logs = vec![Log { address: [4u8; 20], topics: vec![word(t)], data: vec![] }];
        c.labels = vec![([4u8; 20], format!("label{}", t))];
        assert!(run_iteration(&mut session, &mut d, &cfg, false, vec![0, 0, 0, t], c).is_ok());
    }
    let r = session.finish(RunResult::Passed, 100, vec![]);
    assert_eq!(r.logs.len(), 1);
    assert_eq!(r.logs[0].topics, vec![word(2)]);
    assert_eq!(r.labeled_addresses, vec![([4u8; 20], "label2".to_string())]);
}

#[test]
fn equal_gas_keeps_input_order() {
    let cases = FuzzedCases::new(vec![
        FuzzCase::new(vec![3], 50, 0),
        FuzzCase::new(vec![1], 10, 0),
        FuzzCase::new(vec![4], 50, 0),
        FuzzCase::new(vec![2], 10, 0),
    ]);
    let order: Vec<u8> = cases.cases().iter().map(|c| c.calldata[0]).collect();
    assert_eq!(order, vec![1, 2, 3, 4]);
    let again = FuzzedCases::new(cases.clone().into_cases());
    let order2: Vec<u8> = again.cases().iter().map(|c| c.calldata[0]).collect();
    assert_eq!(order2, order);
}

#[test]
fn seeding_is_deterministic_and_bounded() {
    let accounts = vec![
        AccountSnapshot { address: [1u8; 20], code: vec![0x60, 0x07, 0x60, 0x08], storage: vec![] },
        AccountSnapshot { address: [2u8; 20], code: vec![0x60, 0x07], storage: vec![StorageChange { slot: word(1), value: word(2) }] },
    ];
    let exec = FuzzedExecutor::new([0u8; 20], config(true, true, 3));
    let a = exec.build_fuzz_state(&accounts);
    let b = exec.build_fuzz_state(&accounts);
    assert_eq!(a.len(), b.len());
    for i in 0..a.len() {
        assert_eq!(a.sample_value(i), b.sample_value(i));
        assert_eq!(a.sample_address(i), b.sample_address(i));
    }
    let mut padded = [0u8; 32];
    padded[12..].copy_from_slice(&[1u8; 20]);
    assert_eq!(a.sample_value(0), Some(padded));
    assert_eq!(a.sample_value(1), Some(word(7)));
    assert_eq!(a.sample_value(2), Some(word(8)));
    assert!(!a.contains_value(&word(1)));
    assert_eq!(a.len(), 5);
}
