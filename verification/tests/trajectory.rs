use collatz::{step, Computation, ComputationStatus, Overflow};

/// Pulls until the generator stops handing out snapshots.
fn pull_all(computation: &mut Computation) -> Vec<ComputationStatus> {
    let mut snapshots: Vec<ComputationStatus> = Vec::new();
    while let Ok(Some(snapshot)) = computation.pull() {
        snapshots.push(snapshot);
    }
    snapshots
}

fn iterate(start: u128, steps: u128) -> u128 {
    let mut value: u128 = start;
    let mut taken: u128 = 0;
    while taken < steps {
        value = step(value).unwrap();
        taken += 1;
    }
    value
}

#[test]
fn test() {
    let fixtures = vec![
        (
            ComputationStatus {
                finished: true,
                start: 1,
                highest: 1,
                value: 1,
                n: 0,
            },
            1,
        ),
        (
            ComputationStatus {
                finished: true,
                start: 9,
                highest: 52,
                value: 1,
                n: 19,
            },
            9,
        ),
        (
            ComputationStatus {
                finished: true,
                start: 670617279,
                highest: 966616035460,
                value: 1,
                n: 986,
            },
            670617279,
        ),
    ];

    for (expectation, input) in fixtures {
        let result = Computation::new(input)
            .collect()
            .unwrap()
            .last()
            .cloned()
            .unwrap();

        assert_eq!(expectation, result);
    }
}

#[test]
fn step_halves_even_values() {
    assert_eq!(step(0), Some(0));
    assert_eq!(step(2), Some(1));
    assert_eq!(step(6), Some(3));
    assert_eq!(step(966616035460), Some(483308017730));
    assert_eq!(step(u128::MAX - 1), Some(170141183460469231731687303715884105727));
}

#[test]
fn step_triples_odd_values_and_adds_one() {
    assert_eq!(step(1), Some(4));
    assert_eq!(step(7), Some(22));
    assert_eq!(step(27), Some(82));
    assert_eq!(step(670617279), Some(2011851838));
}

#[test]
fn step_reports_overflow_exactly_above_the_limit() {
    let largest_odd_that_fits: u128 = 113427455640312821154458202477256070483;
    assert_eq!(
        step(largest_odd_that_fits),
        Some(340282366920938463463374607431768211450)
    );
    assert_eq!(step(largest_odd_that_fits + 2), None);
    assert_eq!(step(u128::MAX), None);
    assert_eq!(step(largest_odd_that_fits + 3), Some((largest_odd_that_fits + 3) / 2));
}

#[test]
fn status_step_updates_value_highest_and_count() {
    let status = ComputationStatus { finished: false, start: 9, highest: 28, value: 7, n: 2 };
    assert_eq!(
        status.step(),
        Some(ComputationStatus { finished: false, start: 9, highest: 28, value: 22, n: 3 })
    );
    let status = ComputationStatus { finished: false, start: 9, highest: 28, value: 11, n: 4 };
    assert_eq!(
        status.step(),
        Some(ComputationStatus { finished: false, start: 9, highest: 34, value: 34, n: 5 })
    );
}

#[test]
fn status_step_refuses_value_overflow() {
    let status = ComputationStatus {
        finished: false,
        start: u128::MAX,
        highest: u128::MAX,
        value: u128::MAX,
        n: 0,
    };
    assert_eq!(status.step(), None);
}

#[test]
fn status_step_refuses_count_overflow() {
    let status = ComputationStatus { finished: false, start: 8, highest: 8, value: 4, n: u128::MAX };
    assert_eq!(status.step(), None);
    let status = ComputationStatus { finished: false, start: 8, highest: 8, value: 4, n: u128::MAX - 1 };
    assert_eq!(
        status.step(),
        Some(ComputationStatus { finished: false, start: 8, highest: 8, value: 2, n: u128::MAX })
    );
}

#[test]
fn start_one_emits_only_the_terminal_snapshot() {
    let mut computation = Computation::new(1);
    assert_eq!(
        computation.pull(),
        Ok(Some(ComputationStatus { finished: true, start: 1, highest: 1, value: 1, n: 0 }))
    );
    assert_eq!(computation.pull(), Ok(None));
    assert_eq!(Computation::new(1).collect().unwrap().len(), 1);
}

#[test]
fn start_zero_is_exhausted_from_the_outset() {
    let mut computation = Computation::new(0);
    assert_eq!(computation.pull(), Ok(None));
    assert_eq!(computation.pull(), Ok(None));
    assert_eq!(Computation::new(0).collect(), Ok(Vec::new()));
}

#[test]
fn reaching_one_takes_one_more_pull_to_finish() {
    let mut computation = Computation::new(2);
    assert_eq!(
        computation.pull(),
        Ok(Some(ComputationStatus { finished: false, start: 2, highest: 2, value: 1, n: 1 }))
    );
    assert_eq!(
        computation.pull(),
        Ok(Some(ComputationStatus { finished: true, start: 2, highest: 2, value: 1, n: 1 }))
    );
    assert_eq!(computation.pull(), Ok(None));
}

#[test]
fn trajectory_of_nine_snapshot_by_snapshot() {
    let values: Vec<u128> = vec![28, 14, 7, 22, 11, 34, 17, 52, 26, 13, 40, 20, 10, 5, 16, 8, 4, 2, 1];
    let peaks: Vec<u128> = vec![28, 28, 28, 28, 28, 34, 34, 52, 52, 52, 52, 52, 52, 52, 52, 52, 52, 52, 52];
    let mut computation = Computation::new(9);
    let mut count: u128 = 0;
    for (value, peak) in values.iter().zip(peaks.iter()) {
        count += 1;
        assert_eq!(
            computation.pull(),
            Ok(Some(ComputationStatus {
                finished: false,
                start: 9,
                highest: *peak,
                value: *value,
                n: count,
            }))
        );
    }
    assert_eq!(
        computation.pull(),
        Ok(Some(ComputationStatus { finished: true, start: 9, highest: 52, value: 1, n: 19 }))
    );
    assert_eq!(computation.pull(), Ok(None));
}

#[test]
fn exhaustion_is_idempotent() {
    for start in [0u128, 1, 2, 9, 27, 97] {
        let mut computation = Computation::new(start);
        pull_all(&mut computation);
        for _ in 0..10 {
            assert_eq!(computation.pull(), Ok(None));
        }
    }
}

#[test]
fn highest_never_decreases() {
    for start in [1u128, 9, 27, 97, 871, 670617279] {
        let snapshots = Computation::new(start).collect().unwrap();
        let mut previous: u128 = start;
        for snapshot in &snapshots {
            assert!(snapshot.highest >= previous);
            assert!(snapshot.highest >= snapshot.value);
            assert!(snapshot.highest >= snapshot.start);
            previous = snapshot.highest;
        }
    }
    let last = Computation::new(27).collect().unwrap().last().cloned().unwrap();
    assert_eq!(last.highest, 9232);
}

#[test]
fn nth_snapshot_holds_the_value_after_n_steps() {
    for start in [2u128, 9, 27, 97, 871] {
        let snapshots = Computation::new(start).collect().unwrap();
        let mut position: u128 = 0;
        for snapshot in &snapshots {
            position += 1;
            assert_eq!(snapshot.start, start);
            assert_eq!(snapshot.value, iterate(start, snapshot.n));
            if !snapshot.finished {
                assert_eq!(snapshot.n, position);
            } else {
                assert_eq!(snapshot.n, position - 1);
            }
        }
    }
    let snapshots = Computation::new(27).collect().unwrap();
    assert_eq!(snapshots[9].n, 10);
    assert_eq!(snapshots[9].value, 214);
    assert_eq!(snapshots.len(), 112);
}

#[test]
fn last_snapshot_is_finished_at_one() {
    for start in [1u128, 2, 3, 9, 27, 97, 871, 6171] {
        let snapshots = Computation::new(start).collect().unwrap();
        let last = snapshots.last().unwrap();
        assert!(last.finished);
        assert_eq!(last.value, 1);
        assert_eq!(last.start, start);
    }
}

#[test]
fn exactly_one_snapshot_is_finished() {
    for start in [1u128, 2, 3, 9, 27, 97, 871, 6171] {
        let snapshots = Computation::new(start).collect().unwrap();
        let finished = snapshots.iter().filter(|snapshot| snapshot.finished).count();
        assert_eq!(finished, 1);
        for snapshot in &snapshots[..snapshots.len() - 1] {
            assert!(!snapshot.finished);
        }
    }
}

#[test]
fn collect_returns_what_the_pulls_hand_out() {
    for start in [0u128, 1, 9, 27] {
        let mut computation = Computation::new(start);
        let pulled = pull_all(&mut computation);
        assert_eq!(Computation::new(start).collect(), Ok(pulled));
    }
    assert_eq!(Computation::new(9).collect().unwrap().len(), 20);
    assert_eq!(Computation::new(670617279).collect().unwrap().len(), 987);
}

#[test]
fn pull_reports_overflow_and_keeps_the_status() {
    let mut computation = Computation::new(u128::MAX);
    assert_eq!(computation.pull(), Err(Overflow));
    assert_eq!(computation.pull(), Err(Overflow));
    assert_eq!(Computation::new(u128::MAX).collect(), Err(Overflow));
}

#[test]
fn overflow_after_some_steps() {
    let start: u128 = 226854911280625642308916404954512140970;
    let mut computation = Computation::new(start);
    assert_eq!(
        computation.pull(),
        Ok(Some(ComputationStatus {
            finished: false,
            start,
            highest: start,
            value: 113427455640312821154458202477256070485,
            n: 1,
        }))
    );
    assert_eq!(computation.pull(), Err(Overflow));
    assert_eq!(computation.pull(), Err(Overflow));
    assert_eq!(Computation::new(start).collect(), Err(Overflow));
}

#[test]
fn snapshots_are_independent_copies() {
    let mut computation = Computation::new(9);
    let first = computation.pull().unwrap().unwrap();
    let second = computation.pull().unwrap().unwrap();
    assert_eq!(first, ComputationStatus { finished: false, start: 9, highest: 28, value: 28, n: 1 });
    assert_eq!(second, ComputationStatus { finished: false, start: 9, highest: 28, value: 14, n: 2 });
    let copy = first;
    assert_eq!(copy, first);
    assert_ne!(first, second);
}
