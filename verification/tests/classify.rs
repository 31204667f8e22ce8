use angora_stats::{ExecResult, StatusType};

fn quiet() -> ExecResult {
    ExecResult { filtered: false, failed: false, import: false, signal: None, elapsed: 3, budget: 10 }
}

#[test]
fn a_quiet_run_is_normal() {
    assert_eq!(quiet().classify(), StatusType::Normal);
}

#[test]
fn a_run_at_its_budget_is_normal() {
    let r = ExecResult { elapsed: 10, budget: 10, ..quiet() };
    assert_eq!(r.classify(), StatusType::Normal);
}

#[test]
fn a_run_over_its_budget_is_a_timeout() {
    let r = ExecResult { elapsed: 11, budget: 10, ..quiet() };
    assert_eq!(r.classify(), StatusType::Timeout);
}

#[test]
fn a_signalled_run_is_a_crash() {
    let r = ExecResult { signal: Some(11), ..quiet() };
    assert_eq!(r.classify(), StatusType::Crash);
}

#[test]
fn a_run_of_an_import_pass_is_an_import() {
    let r = ExecResult { import: true, ..quiet() };
    assert_eq!(r.classify(), StatusType::Import);
}

#[test]
fn a_filtered_input_is_a_skip() {
    let r = ExecResult { filtered: true, ..quiet() };
    assert_eq!(r.classify(), StatusType::Skip);
}

#[test]
fn a_failed_infrastructure_is_an_error() {
    let r = ExecResult { failed: true, ..quiet() };
    assert_eq!(r.classify(), StatusType::Error);
}

#[test]
fn a_killed_run_over_its_budget_is_a_timeout_not_a_crash() {
    let r = ExecResult { signal: Some(9), elapsed: 30, budget: 10, ..quiet() };
    assert_eq!(r.classify(), StatusType::Timeout);
}

#[test]
fn an_import_run_that_crashed_stays_an_import() {
    let r = ExecResult { import: true, signal: Some(11), elapsed: 30, budget: 10, ..quiet() };
    assert_eq!(r.classify(), StatusType::Import);
}

#[test]
fn a_failure_outranks_all_but_a_skip() {
    let r = ExecResult { failed: true, import: true, signal: Some(6), elapsed: 30, budget: 10, ..quiet() };
    assert_eq!(r.classify(), StatusType::Error);
    let skipped = ExecResult { filtered: true, ..r };
    assert_eq!(skipped.classify(), StatusType::Skip);
}

#[test]
fn every_result_has_exactly_one_category() {
    let categories = [
        StatusType::Normal,
        StatusType::Timeout,
        StatusType::Crash,
        StatusType::Import,
        StatusType::Skip,
        StatusType::Error,
    ];
    let mut seen = [0u32; 6];
    for bits in 0u32..64 {
        let r = ExecResult {
            filtered: bits & 1 != 0,
            failed: bits & 2 != 0,
            import: bits & 4 != 0,
            signal: if bits & 8 != 0 { Some(11) } else { None },
            elapsed: if bits & 16 != 0 { u64::MAX } else { 0 },
            budget: if bits & 32 != 0 { u64::MAX } else { 5 },
        };
        let status = r.classify();
        let hits = categories.iter().filter(|c| **c == status).count();
        assert_eq!(hits, 1);
        assert_eq!(r.classify(), status);
        let incident = r.filtered || r.failed || r.import || r.signal.is_some() || r.elapsed > r.budget;
        assert_eq!(status == StatusType::Normal, !incident);
        for (i, c) in categories.iter().enumerate() {
            if *c == status {
                seen[i] += 1;
            }
        }
    }
    assert_eq!(seen, [3, 2, 3, 8, 32, 16]);
}
