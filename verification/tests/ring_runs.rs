use actor_bench::{
    build_ring, close_ring, gen_tests, run_ring, Data, RingAction, RingError, RingRun, RingState,
    Spec,
};

fn scenario_a() -> Spec {
    Spec { procs: 3, messages: 2, parallel: 1, size: 100 }
}

#[test]
fn test_shakespeare() {
    let tests = gen_tests(Some(2)).unwrap();
    println!("Num tests {}", tests.len());
    let mut results = vec![];
    for spec in tests.into_iter() {
        results.push(run_ring(&spec));
    }
    assert!(results.len() > 0);
}

#[test]
fn build_ring_leaves_open_chain() {
    let ring = build_ring(&scenario_a());
    assert_eq!(ring.actors.len(), 4);
    for (i, a) in ring.actors.iter().enumerate() {
        assert_eq!(a.id as usize, i);
        assert_eq!(a.msgs, 2);
        assert_eq!(a.parallel, 1);
    }
    assert_eq!(ring.actors[0].next, None);
    assert_eq!(ring.actors[1].next, Some(0));
    assert_eq!(ring.actors[2].next, Some(1));
    assert_eq!(ring.actors[3].next, Some(2));
}

#[test]
fn close_ring_forms_single_cycle() {
    let mut ring = build_ring(&scenario_a());
    close_ring(&mut ring, 3);
    // No actor has an absent successor, and following successors from
    // any actor returns to it after exactly n + 1 = 4 hops.
    for a in ring.actors.iter() {
        assert!(a.next.is_some());
    }
    for start in 0..4usize {
        let mut at = start;
        for hop in 1..=4usize {
            at = ring.actors[at].next.unwrap() as usize;
            if hop < 4 {
                assert_ne!(at, start);
            }
        }
        assert_eq!(at, start);
    }
}

#[test]
fn relay_decisions() {
    // A follower forwards unconditionally and stays unchanged.
    let mut follower = RingState { next: Some(1), id: 2, msgs: 9, parallel: 1 };
    assert_eq!(follower.handle(), Ok(RingAction::Forward(1)));
    assert_eq!(follower.msgs, 9);
    // The root decrements while the budget lasts, then stops.
    let mut root = RingState { next: Some(3), id: 0, msgs: 2, parallel: 1 };
    assert_eq!(root.handle(), Ok(RingAction::Forward(3)));
    assert_eq!(root.msgs, 1);
    assert_eq!(root.handle(), Ok(RingAction::Forward(3)));
    assert_eq!(root.msgs, 0);
    assert_eq!(root.handle(), Ok(RingAction::Stop));
}

#[test]
fn close_decisions() {
    let mut linked = RingState { next: Some(5), id: 2, msgs: 0, parallel: 4 };
    assert_eq!(linked.close(9), Some(5));
    assert_eq!(linked.next, Some(5));
    let mut open = RingState { next: None, id: 0, msgs: 0, parallel: 4 };
    assert_eq!(open.close(9), None);
    assert_eq!(open.next, Some(9));
}

#[test]
fn malformed_ring_is_reported() {
    let mut broken = RingState { next: None, id: 7, msgs: 3, parallel: 2 };
    assert_eq!(broken.handle(), Err(RingError { id: 7, parallel: 2 }));
}

#[test]
fn ring_scenario_a_countdown() {
    let spec = scenario_a();
    let mut run = RingRun::new(&spec);
    assert_eq!(run.ring.actors[0].msgs, 2);
    assert_eq!(run.trains.len(), 1);
    assert!(!run.stopped);
    run.run_to_completion();
    assert!(run.stopped);
    assert_eq!(run.decrements, 2);
    assert_eq!(run.ring.actors[0].msgs, 0);
    let result = run_ring(&spec);
    assert_eq!(result.name, "rust_shakespeare");
    assert_eq!(result.spec, spec);
}

#[test]
fn ring_countdown_is_independent_of_parallelism() {
    // The same message budget, drained under different train counts and
    // an interleaved schedule, decrements the root exactly M times.
    for parallel in [1u32, 2, 3, 8] {
        let spec = Spec { procs: 2, messages: 4, parallel, size: 10 };
        let mut run = RingRun::new(&spec);
        let mut pick: usize = 0;
        while !run.stopped {
            run.step(pick % run.trains.len());
            pick = pick.wrapping_add(1);
        }
        assert_eq!(run.decrements, 4);
    }
}

#[test]
fn data_payload_has_requested_size() {
    let data = Data::new(7);
    assert_eq!(data.len(), 7);
}
