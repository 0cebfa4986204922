use successors::{PollStep, Successors};

/// Drives one pull of the machine with a synchronous step function: the
/// step computation completes immediately, as a future that is ready at its
/// first poll would.
fn pull<T: Copy, F: FnMut(T) -> Option<T>>(s: &mut Successors<T>, step: &mut F) -> Option<T> {
    match s.begin_poll() {
        PollStep::Finished => None,
        PollStep::Invoke(v) => {
            let result = step(v);
            s.step_started(v);
            s.step_completed(result)
        }
        PollStep::Resume => unreachable!(),
    }
}

#[test]
fn increment_from_22() {
    let mut s = successors::successors(Some(22u32));
    let mut step = |v: u32| Some(v + 1);
    assert_eq!(pull(&mut s, &mut step), Some(22));
    assert_eq!(pull(&mut s, &mut step), Some(23));
    assert_eq!(pull(&mut s, &mut step), Some(24));
    assert_eq!(pull(&mut s, &mut step), Some(25));
}

#[test]
fn never() {
    let mut calls: usize = 0;
    let mut s = successors::successors(None::<usize>);
    let mut step = |v: usize| {
        calls += 1;
        Some(v + 1)
    };
    assert_eq!(pull(&mut s, &mut step), None);
    assert_eq!(pull(&mut s, &mut step), None);
    assert_eq!(calls, 0);
}

#[test]
fn truncate() {
    let mut s = successors::successors(Some(0u32));
    let mut step = |v: u32| if v < 3 { Some(v + 1) } else { None };
    assert_eq!(pull(&mut s, &mut step), Some(0));
    assert_eq!(pull(&mut s, &mut step), Some(1));
    assert_eq!(pull(&mut s, &mut step), Some(2));
    assert_eq!(pull(&mut s, &mut step), Some(3));
    assert_eq!(pull(&mut s, &mut step), None);
    assert_eq!(pull(&mut s, &mut step), None);
}

#[test]
fn suspension() {
    // The step computation suspends once before completing with v + 1, so
    // each element costs two polls of the in-flight step: one that reports
    // no progress and one that completes.
    let mut s = successors::successors(Some(10u32));
    let mut expected: u32 = 10;
    let mut i: usize = 0;
    while i < 3 {
        // First poll of this pull: the step is constructed and suspends.
        match s.begin_poll() {
            PollStep::Invoke(v) => {
                assert_eq!(v, expected);
                s.step_started(v);
            }
            _ => panic!("a fresh step should be constructed"),
        }
        // The driver pulls again: the same step is resumed, no new one is
        // constructed, and this time it completes.
        match s.begin_poll() {
            PollStep::Resume => {}
            _ => panic!("the suspended step should be resumed"),
        }
        assert_eq!(s.step_completed(Some(expected + 1)), Some(expected));
        expected += 1;
        i += 1;
    }
}

#[test]
fn step_fault_retry() {
    // The step function faults when first invoked on 2: the machine is told
    // nothing, so the slot is untouched and the retried pull asks for the
    // same invocation again; a recovered step then lets the run go on.
    let mut s = successors::successors(Some(1u32));
    let mut step = |v: u32| Some(v + 1);
    assert_eq!(pull(&mut s, &mut step), Some(1));
    assert!(matches!(s.begin_poll(), PollStep::Invoke(2)));
    // step(2) raises here: no step was started, the pull propagates the
    // fault, and the machine still asks for step(2) on the next pull.
    assert!(matches!(s.begin_poll(), PollStep::Invoke(2)));
    s.step_started(2);
    assert_eq!(s.step_completed(Some(3)), Some(2));
    assert_eq!(pull(&mut s, &mut step), Some(3));
}

#[test]
fn terminated_stays_terminated() {
    let mut s = successors::successors(Some(7u32));
    let mut step = |_v: u32| None;
    assert_eq!(pull(&mut s, &mut step), Some(7));
    let mut i: usize = 0;
    while i < 4 {
        assert!(matches!(s.begin_poll(), PollStep::Finished));
        assert_eq!(pull(&mut s, &mut step), None);
        i += 1;
    }
}

#[test]
fn one_invocation_per_element() {
    // Exactly one step invocation per delivered element, seed included, and
    // none for observing termination.
    let calls: std::cell::Cell<usize> = std::cell::Cell::new(0);
    let mut s = successors::successors(Some(0u64));
    let mut step = |v: u64| {
        calls.set(calls.get() + 1);
        if v < 4 {
            Some(v + 10)
        } else {
            None
        }
    };
    let mut delivered: usize = 0;
    while let Some(_) = pull(&mut s, &mut step) {
        delivered += 1;
        assert_eq!(calls.get(), delivered);
    }
    assert_eq!(delivered, 2);
    assert_eq!(calls.get(), 2);
    assert_eq!(pull(&mut s, &mut step), None);
    assert_eq!(calls.get(), 2);
}

#[test]
fn successor_chain() {
    // Every element beyond the first is the step result on the one before.
    let step_fn = |v: i32| if v < 40 { Some(v * 3 + 1) } else { None };
    let mut s = successors::successors(Some(1i32));
    let mut step = step_fn;
    let mut got: Vec<i32> = Vec::new();
    while let Some(v) = pull(&mut s, &mut step) {
        got.push(v);
    }
    assert_eq!(got, vec![1, 4, 13, 40]);
    let mut k: usize = 1;
    while k < got.len() {
        assert_eq!(Some(got[k]), step_fn(got[k - 1]));
        k += 1;
    }
}
