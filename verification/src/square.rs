//! The all-to-all square: `n` actors built in two phases (create all,
//! then publish the shared peer view), a ping/pong broadcast protocol,
//! and a counting barrier seeded with one permit per actor.  Completion
//! detection is permit accounting: each actor releases its permit
//! exactly once, and the harness's fan-in is the acquisition of all `n`
//! permits.

use vstd::prelude::*;

verus! {

/// One broadcast actor: its id, the size of the published peer set (zero
/// until publication), its pong counter, the count it waits for, and
/// whether it still holds its barrier permit.
#[derive(Clone, Copy, Debug)]
pub struct SquareState {
    pub id: usize,
    /// The size of the shared peer set this actor can see; the actor
    /// itself is part of it.
    pub peers: usize,
    pub received: usize,
    pub expected: usize,
    pub has_permit: bool,
}

/// What one pong delivery did to the receiving actor.
#[derive(Clone, Copy, Debug, PartialEq, Eq, Structural)]
pub enum PongEffect {
    /// The counter moved but the actor still waits.
    Counted,
    /// The counter reached the expected total and the actor gave its
    /// permit back.
    Released,
}

/// A synchronization-invariant violation: the actor's count completed
/// (again) while it held no permit to release.
#[derive(Clone, Copy, Debug, PartialEq, Eq, Structural)]
pub struct SquareError {
    pub id: usize,
}

impl SquareState {
    /// Fan a one-way notification to every peer — all others, not self.
    /// The targets come back in id order.
    pub fn ping(&self) -> (targets: Vec<usize>)
        requires
            self.id < self.peers,
        ensures
            targets@.len() == self.peers - 1,
            forall|k: int| 0 <= k < self.id ==> #[trigger] targets@[k] == k,
            forall|k: int|
                self.id <= k < targets@.len() ==> #[trigger] targets@[k] == k + 1,
    {
        let mut targets: Vec<usize> = Vec::new();
        let mut j: usize = 0;
        while j < self.peers
            invariant
                j <= self.peers,
                self.id < self.peers,
                targets@.len() == if j <= self.id {
                    j as int
                } else {
                    j - 1
                },
                forall|k: int| 0 <= k < self.id && k < j ==> #[trigger] targets@[k] == k,
                forall|k: int|
                    self.id <= k < targets@.len() ==> #[trigger] targets@[k] == k + 1,
            decreases self.peers - j,
        {
            if j != self.id {
                targets.push(j);
            }
            j = j + 1;
        }
        targets
    }

    /// Count one pong.  When the counter reaches the expected total the
    /// actor must release its held permit exactly once; completing
    /// without a permit in hand is reported as a violation, never
    /// swallowed.
    pub fn pong(&mut self) -> (r: Result<PongEffect, SquareError>)
        requires
            old(self).received < usize::MAX,
        ensures
            final(self).received == old(self).received + 1,
            final(self).id == old(self).id,
            final(self).peers == old(self).peers,
            final(self).expected == old(self).expected,
            if old(self).received + 1 >= old(self).expected {
                &&& !final(self).has_permit
                &&& if old(self).has_permit {
                    r == Ok::<PongEffect, SquareError>(PongEffect::Released)
                } else {
                    r == Err::<PongEffect, SquareError>(SquareError { id: old(self).id })
                }
            } else {
                &&& final(self).has_permit == old(self).has_permit
                &&& r == Ok::<PongEffect, SquareError>(PongEffect::Counted)
            },
    {
        self.received = self.received + 1;
        if self.received >= self.expected {
            if self.has_permit {
                self.has_permit = false;
                Ok(PongEffect::Released)
            } else {
                Err(SquareError { id: self.id })
            }
        } else {
            Ok(PongEffect::Counted)
        }
    }

    /// Return the counter to zero for a repeated round.
    pub fn reset(&mut self)
        ensures
            final(self).received == 0,
            final(self).id == old(self).id,
            final(self).peers == old(self).peers,
            final(self).expected == old(self).expected,
            final(self).has_permit == old(self).has_permit,
    {
        self.received = 0;
    }

    /// Publish the shared peer view: after construction every actor is
    /// handed the same full set, of size `n`.
    pub fn update_actor_set(&mut self, n: usize)
        ensures
            final(self).peers == n,
            final(self).id == old(self).id,
            final(self).received == old(self).received,
            final(self).expected == old(self).expected,
            final(self).has_permit == old(self).has_permit,
    {
        self.peers = n;
    }

    /// Hand the actor the one permit it owes the barrier.
    pub fn send_permit(&mut self)
        requires
            !old(self).has_permit,
        ensures
            final(self).has_permit,
            final(self).id == old(self).id,
            final(self).peers == old(self).peers,
            final(self).received == old(self).received,
            final(self).expected == old(self).expected,
    {
        self.has_permit = true;
    }
}

/// The counting barrier: `capacity` permits exist in total; `available`
/// of them are free, the rest are held by actors or by the harness.
#[derive(Clone, Copy, Debug)]
pub struct Barrier {
    pub available: usize,
    pub capacity: usize,
}

impl Barrier {
    /// A barrier holding all of its `n` permits.
    pub fn new(n: usize) -> (b: Barrier)
        ensures
            b.available == n,
            b.capacity == n,
    {
        Barrier { available: n, capacity: n }
    }

    /// Take one permit if one is free; never blocks spuriously.
    pub fn try_acquire_one(&mut self) -> (got: bool)
        ensures
            final(self).capacity == old(self).capacity,
            got <==> old(self).available > 0,
            got ==> final(self).available == old(self).available - 1,
            !got ==> final(self).available == old(self).available,
    {
        if self.available > 0 {
            self.available = self.available - 1;
            true
        } else {
            false
        }
    }

    /// Take `k` permits at once, all or nothing.  A caller that would
    /// have to wait gets `false` — success never comes spuriously.
    pub fn try_acquire_many(&mut self, k: usize) -> (got: bool)
        ensures
            final(self).capacity == old(self).capacity,
            got <==> k <= old(self).available,
            got ==> final(self).available == old(self).available - k,
            !got ==> final(self).available == old(self).available,
    {
        if k <= self.available {
            self.available = self.available - k;
            true
        } else {
            false
        }
    }

    /// Return one permit.  More permits than the capacity can never
    /// exist.
    pub fn release_one(&mut self)
        requires
            old(self).available < old(self).capacity,
        ensures
            final(self).capacity == old(self).capacity,
            final(self).available == old(self).available + 1,
    {
        self.available = self.available + 1;
    }

    /// Return `k` permits at once.
    pub fn release_many(&mut self, k: usize)
        requires
            old(self).available + k <= old(self).capacity,
        ensures
            final(self).capacity == old(self).capacity,
            final(self).available == old(self).available + k,
    {
        self.available = self.available + k;
    }

    /// How many permits are free right now.
    pub fn available_permits(&self) -> (n: usize)
        ensures
            n == self.available,
    {
        self.available
    }
}

/// How many actors of the set still hold their permit.
pub open spec fn count_held(s: Seq<SquareState>) -> int
    decreases s.len(),
{
    if s.len() == 0 {
        0
    } else {
        count_held(s.drop_last()) + if s.last().has_permit {
            1int
        } else {
            0int
        }
    }
}

proof fn lemma_count_held_nonneg(s: Seq<SquareState>)
    ensures
        count_held(s) >= 0,
    decreases s.len(),
{
    if s.len() > 0 {
        lemma_count_held_nonneg(s.drop_last());
    }
}

proof fn lemma_count_held_update(s: Seq<SquareState>, i: int, v: SquareState)
    requires
        0 <= i < s.len(),
    ensures
        count_held(s.update(i, v)) == count_held(s) - (if s[i].has_permit {
            1int
        } else {
            0int
        }) + (if v.has_permit {
            1int
        } else {
            0int
        }),
    decreases s.len(),
{
    if i == s.len() - 1 {
        assert(s.update(i, v).drop_last() =~= s.drop_last());
    } else {
        assert(s.update(i, v).drop_last() =~= s.drop_last().update(i, v));
        lemma_count_held_update(s.drop_last(), i, v);
    }
}

proof fn lemma_count_held_at_least_one(s: Seq<SquareState>, j: int)
    requires
        0 <= j < s.len(),
        s[j].has_permit,
    ensures
        count_held(s) >= 1,
    decreases s.len(),
{
    if j == s.len() - 1 {
        lemma_count_held_nonneg(s.drop_last());
    } else {
        lemma_count_held_at_least_one(s.drop_last(), j);
    }
}

proof fn lemma_count_held_zero(s: Seq<SquareState>)
    requires
        forall|i: int| 0 <= i < s.len() ==> !(#[trigger] s[i]).has_permit,
    ensures
        count_held(s) == 0,
    decreases s.len(),
{
    if s.len() > 0 {
        lemma_count_held_zero(s.drop_last());
    }
}

/// One square benchmark instance: the actor set and the barrier they
/// share.
pub struct SquareRun {
    pub actors: Vec<SquareState>,
    pub barrier: Barrier,
}

impl SquareRun {
    /// The number of actors, which equals the barrier's capacity.
    pub open spec fn n(self) -> int {
        self.barrier.capacity as int
    }

    /// Structural well-formedness, including the permit conservation the
    /// design rests on: whenever the harness itself holds no permits,
    /// the free permits and the actor-held permits partition the
    /// capacity `n`.
    pub open spec fn wf(self) -> bool {
        &&& self.actors@.len() == self.n()
        &&& self.barrier.capacity >= 1
        &&& forall|i: int| 0 <= i < self.n() ==> (#[trigger] self.actors@[i]).id == i
        &&& forall|i: int|
            0 <= i < self.n() ==> (#[trigger] self.actors@[i]).expected == self.n() - 1
        &&& forall|i: int| 0 <= i < self.n() ==> (#[trigger] self.actors@[i]).peers == self.n()
        &&& self.barrier.available + count_held(self.actors@) == self.barrier.capacity
    }

    /// The clean-round invariant: on top of `wf`, no counter has
    /// overshot, every permit the actors and the harness do not hold is
    /// free, and an actor holds its permit exactly while its count is
    /// still short.
    pub open spec fn inv(self) -> bool {
        &&& self.wf()
        &&& forall|i: int|
            0 <= i < self.n()
                ==> (#[trigger] self.actors@[i]).received <= self.actors@[i].expected
        &&& forall|i: int|
            0 <= i < self.n()
                ==> ((#[trigger] self.actors@[i]).has_permit <==> self.actors@[i].received
                    < self.actors@[i].expected)
    }
}

/// Build a square of `n` actors in two phases.  First every actor is
/// created with an empty peer view; then, once all exist, each is given
/// the same shared full view and pre-acquires exactly one barrier
/// permit, leaving the barrier empty.
pub fn build_square(n: usize) -> (run: SquareRun)
    requires
        1 <= n,
    ensures
        run.wf(),
        run.n() == n,
        run.barrier.available == 0,
        count_held(run.actors@) == n,
        forall|i: int|
            0 <= i < n
                ==> (#[trigger] run.actors@[i]).received == 0 && run.actors@[i].has_permit,
        n >= 2 ==> run.inv(),
{
    let mut barrier = Barrier::new(n);
    let mut actors: Vec<SquareState> = Vec::new();
    let mut id: usize = 0;
    while id < n
        invariant
            id <= n,
            actors@.len() == id,
            forall|i: int|
                0 <= i < id ==> (#[trigger] actors@[i]) == (SquareState {
                    id: i as usize,
                    peers: 0,
                    received: 0,
                    expected: (n - 1) as usize,
                    has_permit: false,
                }),
            count_held(actors@) == 0,
        decreases n - id,
    {
        let ghost pre = actors@;
        actors.push(
            SquareState { id, peers: 0, received: 0, expected: n - 1, has_permit: false },
        );
        proof {
            assert(actors@.drop_last() =~= pre);
        }
        id = id + 1;
    }
    let mut i: usize = 0;
    while i < n
        invariant
            i <= n,
            actors@.len() == n,
            barrier.capacity == n,
            barrier.available == n - i,
            count_held(actors@) == i,
            forall|j: int|
                0 <= j < i ==> (#[trigger] actors@[j]) == (SquareState {
                    id: j as usize,
                    peers: n,
                    received: 0,
                    expected: (n - 1) as usize,
                    has_permit: true,
                }),
            forall|j: int|
                i <= j < n ==> (#[trigger] actors@[j]) == (SquareState {
                    id: j as usize,
                    peers: 0,
                    received: 0,
                    expected: (n - 1) as usize,
                    has_permit: false,
                }),
        decreases n - i,
    {
        let ghost pre = actors@;
        let mut a = actors[i];
        a.update_actor_set(n);
        let got = barrier.try_acquire_one();
        proof {
            assert(got);
        }
        a.send_permit();
        actors.set(i, a);
        proof {
            lemma_count_held_update(pre, i as int, a);
        }
        i = i + 1;
    }
    let run = SquareRun { actors, barrier };
    proof {
        lemma_count_held_nonneg(run.actors@);
    }
    run
}

impl SquareRun {
    /// Deliver one pong to actor `j`; when the actor completes, its
    /// permit goes back to the barrier.  A completion without a held
    /// permit is the protocol violation, reported to the caller.
    pub fn deliver_pong(&mut self, j: usize) -> (r: Result<PongEffect, SquareError>)
        requires
            old(self).wf(),
            j < old(self).n(),
            old(self).actors@[j as int].received < usize::MAX,
        ensures
            final(self).wf(),
            final(self).n() == old(self).n(),
            final(self).barrier.capacity == old(self).barrier.capacity,
            forall|i: int|
                0 <= i < old(self).n() && i != j
                    ==> #[trigger] final(self).actors@[i] == old(self).actors@[i],
            ({
                let a = old(self).actors@[j as int];
                let b = final(self).actors@[j as int];
                &&& b.received == a.received + 1
                &&& b.id == a.id
                &&& b.peers == a.peers
                &&& b.expected == a.expected
                &&& if a.received + 1 >= a.expected {
                    &&& !b.has_permit
                    &&& if a.has_permit {
                        r == Ok::<PongEffect, SquareError>(PongEffect::Released)
                            && final(self).barrier.available == old(self).barrier.available + 1
                    } else {
                        r == Err::<PongEffect, SquareError>(SquareError { id: a.id })
                            && final(self).barrier.available == old(self).barrier.available
                    }
                } else {
                    &&& b.has_permit == a.has_permit
                    &&& r == Ok::<PongEffect, SquareError>(PongEffect::Counted)
                    &&& final(self).barrier.available == old(self).barrier.available
                }
            }),
            old(self).inv() && old(self).actors@[j as int].received < old(self).actors@[
                j as int
            ].expected ==> final(self).inv() && r is Ok,
    {
        let ghost pre = *self;
        let mut a = self.actors[j];
        let r = a.pong();
        if let Ok(PongEffect::Released) = r {
            proof {
                lemma_count_held_at_least_one(pre.actors@, j as int);
            }
            self.barrier.release_one();
        }
        self.actors.set(j, a);
        proof {
            lemma_count_held_update(pre.actors@, j as int, a);
        }
        r
    }

    /// One actor's whole `ping()` together with the deliveries it
    /// causes: every peer counts one pong.  The round invariant rules
    /// out a completion without a permit, so every delivery succeeds.
    pub fn ping_from(&mut self, i: usize)
        requires
            old(self).inv(),
            i < old(self).n(),
            forall|j: int|
                0 <= j < old(self).n() && j != i
                    ==> (#[trigger] old(self).actors@[j]).received < old(self).actors@[
                        j
                    ].expected,
        ensures
            final(self).inv(),
            final(self).n() == old(self).n(),
            final(self).barrier.capacity == old(self).barrier.capacity,
            final(self).actors@[i as int] == old(self).actors@[i as int],
            forall|j: int|
                0 <= j < old(self).n() && j != i ==> {
                    let a = old(self).actors@[j];
                    let b = #[trigger] final(self).actors@[j];
                    &&& b.received == a.received + 1
                    &&& b.id == a.id
                    &&& b.peers == a.peers
                    &&& b.expected == a.expected
                    &&& (b.has_permit <==> a.received + 1 < a.expected)
                },
    {
        let a = self.actors[i];
        let targets = a.ping();
        let mut m: usize = 0;
        while m < targets.len()
            invariant
                self.inv(),
                self.n() == old(self).n(),
                self.barrier.capacity == old(self).barrier.capacity,
                i < self.n(),
                forall|j: int|
                    0 <= j < old(self).n() && j != i
                        ==> (#[trigger] old(self).actors@[j]).received < old(self).actors@[
                            j
                        ].expected,
                targets@.len() == self.n() - 1,
                forall|k: int| 0 <= k < i ==> #[trigger] targets@[k] == k,
                forall|k: int| i <= k < targets@.len() ==> #[trigger] targets@[k] == k + 1,
                m <= targets@.len(),
                self.actors@[i as int] == old(self).actors@[i as int],
                forall|j: int|
                    0 <= j < self.n() && j != i && ((j < i && j < m) || (i < j && j <= m))
                        ==> {
                            let a0 = old(self).actors@[j];
                            let b = #[trigger] self.actors@[j];
                            &&& b.received == a0.received + 1
                            &&& b.id == a0.id
                            &&& b.peers == a0.peers
                            &&& b.expected == a0.expected
                            &&& (b.has_permit <==> a0.received + 1 < a0.expected)
                        },
                forall|j: int|
                    0 <= j < self.n() && j != i && !((j < i && j < m) || (i < j && j <= m))
                        ==> #[trigger] self.actors@[j] == old(self).actors@[j],
            decreases targets@.len() - m,
        {
            let j = targets[m];
            proof {
                assert(j != i);
                assert(self.actors@[j as int] == old(self).actors@[j as int]);
            }
            let r = self.deliver_pong(j);
            proof {
                assert(r is Ok);
            }
            m = m + 1;
        }
    }

    /// Start a fresh round on the same actor set: `reset()` every actor
    /// and hand each one a newly acquired permit.  The resulting state
    /// is exactly the one `build_square` leaves behind — no permit of
    /// the previous round leaks.
    pub fn reset_round(&mut self)
        requires
            old(self).wf(),
            old(self).barrier.available == old(self).barrier.capacity,
            forall|i: int|
                0 <= i < old(self).n() ==> !(#[trigger] old(self).actors@[i]).has_permit,
        ensures
            final(self).wf(),
            final(self).n() == old(self).n(),
            final(self).barrier.available == 0,
            count_held(final(self).actors@) == final(self).n(),
            forall|i: int|
                0 <= i < final(self).n()
                    ==> (#[trigger] final(self).actors@[i]).received == 0
                        && final(self).actors@[i].has_permit,
            final(self).n() >= 2 ==> final(self).inv(),
    {
        let n = self.barrier.capacity;
        proof {
            lemma_count_held_zero(self.actors@);
        }
        let mut i: usize = 0;
        while i < n
            invariant
                i <= n,
                n == self.barrier.capacity,
                self.actors@.len() == n,
                self.barrier.available == n - i,
                count_held(self.actors@) == i,
                forall|j: int|
                    0 <= j < self.actors@.len() ==> {
                        let a0 = old(self).actors@[j];
                        let b = #[trigger] self.actors@[j];
                        &&& b.id == a0.id
                        &&& b.peers == a0.peers
                        &&& b.expected == a0.expected
                    },
                forall|j: int|
                    0 <= j < i
                        ==> (#[trigger] self.actors@[j]).received == 0
                            && self.actors@[j].has_permit,
                forall|j: int|
                    i <= j < n
                        ==> (#[trigger] self.actors@[j]).received == old(self).actors@[
                            j
                        ].received && !self.actors@[j].has_permit,
                old(self).wf(),
                self.actors@.len() == old(self).actors@.len(),
            decreases n - i,
        {
            let ghost pre = self.actors@;
            let mut a = self.actors[i];
            a.reset();
            let got = self.barrier.try_acquire_one();
            proof {
                assert(got);
            }
            a.send_permit();
            self.actors.set(i, a);
            proof {
                lemma_count_held_update(pre, i as int, a);
            }
            i = i + 1;
        }
    }

    /// One complete broadcast round on a freshly seeded square: every
    /// actor pings, the resulting pongs complete every actor, every
    /// permit returns to the barrier, and the harness's acquisition of
    /// all `n` permits — its fan-in — must and does succeed, after which
    /// it hands the permits back.
    pub fn run_round(&mut self)
        requires
            old(self).inv(),
            old(self).n() >= 2,
            forall|i: int|
                0 <= i < old(self).n()
                    ==> (#[trigger] old(self).actors@[i]).received == 0
                        && old(self).actors@[i].has_permit,
        ensures
            final(self).wf(),
            final(self).inv(),
            final(self).n() == old(self).n(),
            forall|i: int|
                0 <= i < final(self).n()
                    ==> (#[trigger] final(self).actors@[i]).received == final(self).n() - 1
                        && !final(self).actors@[i].has_permit,
            final(self).barrier.available == final(self).barrier.capacity,
    {
        let n = self.barrier.capacity;
        let mut i: usize = 0;
        while i < n
            invariant
                i <= n,
                n == self.barrier.capacity,
                n >= 2,
                self.inv(),
                self.n() == old(self).n(),
                forall|j: int|
                    0 <= j < n ==> {
                        let a0 = old(self).actors@[j];
                        let b = #[trigger] self.actors@[j];
                        &&& b.id == a0.id
                        &&& b.peers == a0.peers
                        &&& b.expected == a0.expected
                        &&& b.received == i - (if j < i {
                            1int
                        } else {
                            0int
                        })
                    },
            decreases n - i,
        {
            self.ping_from(i);
            i = i + 1;
        }
        proof {
            lemma_count_held_zero(self.actors@);
        }
        let got = self.barrier.try_acquire_many(n);
        proof {
            assert(got);
        }
        self.barrier.release_many(n);
    }
}

/// Law: permits are conserved — the barrier can never end up offering
/// more permits than its capacity, however the round went.
pub proof fn lemma_no_overacquire(run: SquareRun)
    requires
        run.wf(),
    ensures
        run.barrier.available <= run.barrier.capacity,
{
    lemma_count_held_nonneg(run.actors@);
}

/// Law: an actor that still waits for pongs holds its permit, so the
/// harness's acquisition of all `n` permits cannot succeed before every
/// actor has seen its full count — it would have to block instead.
pub proof fn lemma_no_spurious_completion(run: SquareRun, j: int)
    requires
        run.inv(),
        0 <= j < run.n(),
        run.actors@[j].received < run.actors@[j].expected,
    ensures
        run.barrier.available < run.barrier.capacity,
{
    lemma_count_held_at_least_one(run.actors@, j);
}

/// Law: once every actor has seen its full pong count, no permit is
/// held any more and the barrier offers exactly its capacity — the
/// harness's acquisition of all `n` permits must succeed, and exactly
/// `n` permits exist to be had.
pub proof fn lemma_completion_releases_all(run: SquareRun)
    requires
        run.inv(),
        forall|i: int|
            0 <= i < run.n()
                ==> (#[trigger] run.actors@[i]).received >= run.actors@[i].expected,
    ensures
        run.barrier.available == run.barrier.capacity,
{
    lemma_count_held_zero(run.actors@);
}

/// Build a square of `n` actors and run one broadcast round.  The
/// blocking full-barrier acquisition of the harness appears in the model
/// as an acquisition that must and does succeed.
pub fn run_square(n: usize) -> (run: SquareRun)
    requires
        2 <= n,
    ensures
        run.wf(),
        run.n() == n,
        forall|i: int|
            0 <= i < run.n()
                ==> (#[trigger] run.actors@[i]).received == run.n() - 1
                    && !run.actors@[i].has_permit,
        run.barrier.available == run.barrier.capacity,
{
    let mut run = build_square(n);
    run.run_round();
    run
}

} // verus!
