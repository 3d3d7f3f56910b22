use actor_bench::{build_square, run_square, Barrier, PongEffect, SquareError, SquareState};

#[test]
fn square_test() {
    let mut run = build_square(3);
    assert_eq!(run.barrier.available_permits(), 0);
    run.run_round();
}

#[test]
fn square_scenario_b() {
    // n = 4: four permits pre-acquired, one ping wave makes 4 x 3 = 12
    // directed pong deliveries, each actor sees exactly 3, every permit
    // releases, and the harness's 4-permit acquisition completes.
    let mut run = build_square(4);
    assert_eq!(run.barrier.available_permits(), 0);
    for a in run.actors.iter() {
        assert_eq!(a.received, 0);
        assert_eq!(a.expected, 3);
        assert!(a.has_permit);
    }
    let mut deliveries = 0usize;
    for i in 0..4usize {
        let targets = run.actors[i].ping();
        for j in targets {
            run.deliver_pong(j).unwrap();
            deliveries += 1;
        }
    }
    assert_eq!(deliveries, 12);
    for a in run.actors.iter() {
        assert_eq!(a.received, 3);
        assert!(!a.has_permit);
    }
    assert_eq!(run.barrier.available_permits(), 4);
    assert!(run.barrier.try_acquire_many(4));
    assert_eq!(run.barrier.available_permits(), 0);
}

#[test]
fn ping_targets_exclude_self() {
    let a = SquareState { id: 1, peers: 4, received: 0, expected: 3, has_permit: true };
    assert_eq!(a.ping(), vec![0, 2, 3]);
    let first = SquareState { id: 0, peers: 4, received: 0, expected: 3, has_permit: true };
    assert_eq!(first.ping(), vec![1, 2, 3]);
    let last = SquareState { id: 3, peers: 4, received: 0, expected: 3, has_permit: true };
    assert_eq!(last.ping(), vec![0, 1, 2]);
}

#[test]
fn acquisition_blocks_until_all_pongs_complete() {
    let mut run = build_square(3);
    // Nothing delivered: every permit is still held.
    assert!(!run.barrier.try_acquire_many(3));
    // One pong is not completion either.
    assert_eq!(run.deliver_pong(0), Ok(PongEffect::Counted));
    assert!(!run.barrier.try_acquire_many(3));
    // Finish the wave: each actor needs expected = 2 pongs.
    assert_eq!(run.deliver_pong(0), Ok(PongEffect::Released));
    for j in [1usize, 2] {
        assert_eq!(run.deliver_pong(j), Ok(PongEffect::Counted));
        assert_eq!(run.deliver_pong(j), Ok(PongEffect::Released));
    }
    // Exactly 3 permits can be had, and no more.
    assert!(!run.barrier.try_acquire_many(4));
    assert!(run.barrier.try_acquire_many(3));
    assert_eq!(run.barrier.available_permits(), 0);
}

#[test]
fn double_release_is_reported() {
    let mut run = build_square(2);
    // With n = 2 a single pong completes an actor.
    assert_eq!(run.deliver_pong(0), Ok(PongEffect::Released));
    // A further pong finds no permit to release: a loud defect.
    assert_eq!(run.deliver_pong(0), Err(SquareError { id: 0 }));
}

#[test]
fn reset_round_repeats_without_leaks() {
    let mut run = run_square(4);
    for a in run.actors.iter() {
        assert_eq!(a.received, 3);
        assert!(!a.has_permit);
    }
    assert_eq!(run.barrier.available_permits(), 4);
    run.reset_round();
    // Exactly the state a fresh build leaves behind.
    assert_eq!(run.barrier.available_permits(), 0);
    for a in run.actors.iter() {
        assert_eq!(a.received, 0);
        assert!(a.has_permit);
    }
    run.run_round();
    for a in run.actors.iter() {
        assert_eq!(a.received, 3);
        assert!(!a.has_permit);
    }
    assert_eq!(run.barrier.available_permits(), 4);
}

#[test]
fn barrier_counts_permits() {
    let mut b = Barrier::new(2);
    assert_eq!(b.available_permits(), 2);
    assert!(b.try_acquire_one());
    assert!(b.try_acquire_one());
    assert!(!b.try_acquire_one());
    b.release_one();
    assert_eq!(b.available_permits(), 1);
    b.release_one();
    assert_eq!(b.available_permits(), 2);
}

#[test]
fn pong_counts_and_releases_once() {
    let mut a = SquareState { id: 5, peers: 4, received: 0, expected: 2, has_permit: true };
    assert_eq!(a.pong(), Ok(PongEffect::Counted));
    assert_eq!(a.pong(), Ok(PongEffect::Released));
    assert!(!a.has_permit);
    assert_eq!(a.pong(), Err(SquareError { id: 5 }));
    a.reset();
    assert_eq!(a.received, 0);
    a.send_permit();
    assert!(a.has_permit);
}
