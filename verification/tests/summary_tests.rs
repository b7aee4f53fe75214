use std::sync::Mutex;

use rayon::iter::IntoParallelIterator;
use rayon::iter::ParallelIterator;

use compiler_tester::summary::{OutcomeKind, Summary};

#[test]
fn counters_follow_recorded_kinds() {
    let mut s = Summary::new();
    s.record(b"a".to_vec(), OutcomeKind::Passed, None);
    s.record(b"b".to_vec(), OutcomeKind::Passed, None);
    s.record(b"c".to_vec(), OutcomeKind::Mismatched, Some(b"diff".to_vec()));
    s.record(b"d".to_vec(), OutcomeKind::BuildFailure, None);
    s.record(b"e".to_vec(), OutcomeKind::CompileFailure, None);
    s.record(b"f".to_vec(), OutcomeKind::Crashed, None);
    s.record(b"g".to_vec(), OutcomeKind::Ignored, None);
    assert_eq!(s.passed, 2);
    assert_eq!(s.mismatched, 1);
    assert_eq!(s.build_failures, 1);
    assert_eq!(s.compile_failures, 1);
    assert_eq!(s.crashed, 1);
    assert_eq!(s.ignored, 1);
    assert_eq!(s.total(), 7);
    assert_eq!(s.records[2].diagnostic, Some(b"diff".to_vec()));
}

fn kind_of_unit(i: usize) -> OutcomeKind {
    match i % 4 {
        0 => OutcomeKind::Passed,
        1 => OutcomeKind::Mismatched,
        2 => OutcomeKind::Crashed,
        _ => OutcomeKind::Ignored,
    }
}

fn run_concurrently(n: usize) -> (u64, u64, u64, u64, usize) {
    let shared = Mutex::new(Summary::new());
    (0..n).into_par_iter().for_each(|i| {
        // induce scheduling jitter so recording order varies
        let mut spin = 0u64;
        for k in 0..(i % 17) * 1000 {
            spin = spin.wrapping_add(k as u64);
        }
        std::hint::black_box(spin);
        let kind = kind_of_unit(i);
        let mut guard = shared.lock().unwrap();
        guard.record(format!("unit-{i}").into_bytes(), kind, None);
    });
    let s = shared.into_inner().unwrap();
    (s.passed, s.mismatched, s.crashed, s.ignored, s.total())
}

#[test]
fn concurrent_recording_is_order_independent() {
    let n = 200;
    let first = run_concurrently(n);
    let second = run_concurrently(n);
    assert_eq!(first, second);
    let (passed, mismatched, crashed, ignored, total) = first;
    assert_eq!(total, n);
    assert_eq!(passed, 50);
    assert_eq!(mismatched, 50);
    assert_eq!(crashed, 50);
    assert_eq!(ignored, 50);
}
