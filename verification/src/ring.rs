//! The relay ring: an acyclic chain of actors built first, a one-shot
//! close directive that completes the cycle once every node exists, the
//! per-actor forwarding state machine, and a delivery-by-delivery run
//! model whose root counts its message budget down to zero.

use vstd::prelude::*;
use vstd::string::StringExecFns;
use vstd::string::StrSliceExecFns;
use crate::params::{BenchResult, Spec};

verus! {

/// The immutable payload one run shares across all hops; it is built
/// once and never mutated in transit.
pub struct Data {
    payload: std::sync::Arc<String>,
}

impl View for Data {
    type V = Seq<char>;

    closed spec fn view(&self) -> Seq<char> {
        self.payload@
    }
}

impl Data {
    /// A synthetic payload of `size` filler characters.
    pub fn new(size: u32) -> (d: Data)
        ensures
            d@.len() == size,
            forall|i: int| 0 <= i < size ==> d@[i] == 'x',
    {
        proof {
            reveal_strlit("x");
        }
        let mut s = String::new();
        let mut i: u32 = 0;
        while i < size
            invariant
                i <= size,
                s@.len() == i,
                forall|j: int| 0 <= j < i ==> s@[j] == 'x',
            decreases size - i,
        {
            proof {
                reveal_strlit("x");
            }
            s.append("x");
            i = i + 1;
        }
        Data { payload: std::sync::Arc::new(s) }
    }

    /// The payload length.
    pub fn len(&self) -> (n: usize)
        ensures
            n == self@.len(),
    {
        self.payload.as_str().unicode_len()
    }
}

/// One relay actor: its place in the ring, its successor once it is
/// known, the root's remaining message budget, and the configured
/// parallelism it reports on a malformed delivery.
#[derive(Clone, Copy, Debug)]
pub struct RingState {
    /// The successor's id; absent until the node behind it exists.
    pub next: Option<u32>,
    /// The place in the ring; the root is 0.
    pub id: u32,
    /// The remaining countdown; only the root's is meaningful.
    pub msgs: u32,
    /// The configured number of parallel trains, echoed in errors.
    pub parallel: u32,
}

/// What a relay actor decides for one payload delivery.
#[derive(Clone, Copy, Debug, PartialEq, Eq, Structural)]
pub enum RingAction {
    /// Pass the payload on to the successor with this id.
    Forward(u32),
    /// The root's budget is spent: end the run.
    Stop,
}

/// A relay message reached an actor with an absent successor after
/// setup: the ring is malformed.  The offending actor's id and the
/// configured parallelism are reported.
#[derive(Clone, Copy, Debug, PartialEq, Eq, Structural)]
pub struct RingError {
    pub id: u32,
    pub parallel: u32,
}

impl RingState {
    /// One delivery of the one-shot close directive carrying the head's
    /// id: an actor that already has a successor forwards the directive
    /// unchanged, and the actor whose successor is absent adopts the
    /// head, closing the cycle.
    pub fn close(&mut self, first: u32) -> (forwarded: Option<u32>)
        ensures
            match old(self).next {
                Some(nx) => forwarded == Some(nx) && *final(self) == *old(self),
                None => {
                    &&& forwarded is None
                    &&& final(self).next == Some(first)
                    &&& final(self).id == old(self).id
                    &&& final(self).msgs == old(self).msgs
                    &&& final(self).parallel == old(self).parallel
                },
            },
    {
        match self.next {
            Some(nx) => Some(nx),
            None => {
                self.next = Some(first);
                None
            },
        }
    }

    /// One payload delivery.  A non-root actor forwards unconditionally.
    /// The root decrements its countdown and forwards while the budget
    /// lasts, and ends the run once it is spent.  An absent successor is
    /// a malformed ring, reported immediately.
    pub fn handle(&mut self) -> (r: Result<RingAction, RingError>)
        ensures
            match old(self).next {
                None => r == Err::<RingAction, RingError>(
                    RingError { id: old(self).id, parallel: old(self).parallel },
                ) && *final(self) == *old(self),
                Some(nx) => {
                    if old(self).id == 0 {
                        if old(self).msgs == 0 {
                            r == Ok::<RingAction, RingError>(RingAction::Stop)
                                && *final(self) == *old(self)
                        } else {
                            &&& r == Ok::<RingAction, RingError>(RingAction::Forward(nx))
                            &&& final(self).msgs == old(self).msgs - 1
                            &&& final(self).next == old(self).next
                            &&& final(self).id == old(self).id
                            &&& final(self).parallel == old(self).parallel
                        }
                    } else {
                        r == Ok::<RingAction, RingError>(RingAction::Forward(nx))
                            && *final(self) == *old(self)
                    }
                },
            },
    {
        match self.next {
            Some(nx) => {
                if self.id == 0 {
                    if self.msgs == 0 {
                        Ok(RingAction::Stop)
                    } else {
                        self.msgs = self.msgs - 1;
                        Ok(RingAction::Forward(nx))
                    }
                } else {
                    Ok(RingAction::Forward(nx))
                }
            },
            None => Err(RingError { id: self.id, parallel: self.parallel }),
        }
    }
}

/// The ring topology: actor `i` sits at position `i` of the vector.
pub struct Ring {
    pub actors: Vec<RingState>,
}

impl Ring {
    /// The acyclic chain construction leaves behind: the root still has
    /// no successor, and every follower points at the node created just
    /// before it.  The head is the last follower, `n`.
    pub open spec fn chain(self, n: int) -> bool {
        &&& self.actors@.len() == n + 1
        &&& forall|i: int| 0 <= i <= n ==> (#[trigger] self.actors@[i]).id == i
        &&& self.actors@[0].next is None
        &&& forall|i: int|
            1 <= i <= n ==> (#[trigger] self.actors@[i]).next == Some((i - 1) as u32)
    }

    /// The closed cycle: the root points at the head and every other
    /// actor still points at its predecessor; no successor is absent.
    pub open spec fn closed(self, n: int) -> bool {
        &&& self.actors@.len() == n + 1
        &&& forall|i: int| 0 <= i <= n ==> (#[trigger] self.actors@[i]).id == i
        &&& self.actors@[0].next == Some(n as u32)
        &&& forall|i: int|
            1 <= i <= n ==> (#[trigger] self.actors@[i]).next == Some((i - 1) as u32)
    }
}

/// Both topology phases keep every actor's countdown and parallelism.
pub open spec fn same_budgets(a: Seq<RingState>, b: Seq<RingState>) -> bool {
    &&& a.len() == b.len()
    &&& forall|i: int|
        0 <= i < a.len() ==> (#[trigger] a[i]).msgs == b[i].msgs && a[i].parallel == b[i].parallel
}

/// Create the root and then `spec.procs` followers with increasing ids,
/// each pointing at the previously created actor: an acyclic chain whose
/// tail is the root and whose head, actor `spec.procs`, has no successor
/// yet.
pub fn build_ring(spec: &Spec) -> (ring: Ring)
    requires
        spec.procs < u32::MAX,
    ensures
        ring.chain(spec.procs as int),
        forall|i: int|
            0 <= i <= spec.procs
                ==> (#[trigger] ring.actors@[i]).msgs == spec.messages
                    && ring.actors@[i].parallel == spec.parallel,
{
    let mut actors: Vec<RingState> = Vec::new();
    actors.push(RingState { next: None, id: 0, msgs: spec.messages, parallel: spec.parallel });
    let mut n: u32 = 0;
    while n < spec.procs
        invariant
            n <= spec.procs,
            spec.procs < u32::MAX,
            actors@.len() == n + 1,
            forall|i: int| 0 <= i <= n ==> (#[trigger] actors@[i]).id == i,
            actors@[0].next is None,
            forall|i: int| 1 <= i <= n ==> (#[trigger] actors@[i]).next == Some((i - 1) as u32),
            forall|i: int|
                0 <= i <= n
                    ==> (#[trigger] actors@[i]).msgs == spec.messages
                        && actors@[i].parallel == spec.parallel,
        decreases spec.procs - n,
    {
        actors.push(
            RingState {
                next: Some(n),
                id: n + 1,
                msgs: spec.messages,
                parallel: spec.parallel,
            },
        );
        n = n + 1;
    }
    Ring { actors }
}

/// Close the cycle: deliver the one-shot directive carrying the head's
/// id at the root and follow each actor's forwarding decision until the
/// actor with the absent successor adopts the head.
pub fn close_ring(ring: &mut Ring, n: u32)
    requires
        old(ring).chain(n as int),
    ensures
        final(ring).closed(n as int),
        same_budgets(old(ring).actors@, final(ring).actors@),
{
    let mut cur: usize = 0;
    loop
        invariant_except_break
            cur <= n,
            ring.chain(n as int),
            ring.actors@ == old(ring).actors@,
        ensures
            ring.closed(n as int),
            same_budgets(old(ring).actors@, ring.actors@),
        decreases cur,
    {
        let mut actor = ring.actors[cur];
        let forwarded = actor.close(n);
        match forwarded {
            Some(nx) => {
                cur = nx as usize;
            },
            None => {
                ring.actors.set(cur, actor);
                proof {
                    assert(ring.actors@[0].next == Some(n));
                }
                break;
            },
        }
    }
}

/// The successor of actor `i` in the closed ring of `n + 1` actors.
pub open spec fn ring_next(n: int, i: int) -> int {
    if i == 0 {
        n
    } else {
        i - 1
    }
}

/// Where following `s` successor hops from actor `i` leads.
pub open spec fn ring_reach(n: int, i: int, s: nat) -> int
    decreases s,
{
    if s == 0 {
        i
    } else {
        ring_next(n, ring_reach(n, i, (s - 1) as nat))
    }
}

/// In a closed ring, every actor's successor is present and is
/// `ring_next` of its position.
pub proof fn lemma_closed_ring_successors(ring: Ring, n: int, i: int)
    requires
        ring.closed(n),
        0 <= i <= n,
    ensures
        ring.actors@[i].next is Some,
        ring.actors@[i].next == Some(ring_next(n, i) as u32),
{
}

/// Hops that stay short of the root walk straight down the chain.
proof fn lemma_reach_down(n: int, i: int, s: nat)
    requires
        0 <= s <= i <= n,
    ensures
        ring_reach(n, i, s) == i - s,
    decreases s,
{
    if s > 0 {
        lemma_reach_down(n, i, (s - 1) as nat);
    }
}

/// Hops past the root wrap to the head and walk down again.
proof fn lemma_reach_wrap(n: int, i: int, s: nat)
    requires
        0 <= i <= n,
        i + 1 <= s <= i + 1 + n,
    ensures
        ring_reach(n, i, s) == n - (s - i - 1),
    decreases s,
{
    if s == i + 1 {
        lemma_reach_down(n, i, (s - 1) as nat);
    } else {
        lemma_reach_wrap(n, i, (s - 1) as nat);
    }
}

/// Law: the closed topology is a single cycle of length `n + 1`.
/// Following successors from any actor first returns to it after exactly
/// `n + 1` hops — never fewer.
pub proof fn lemma_ring_single_cycle(n: int, i: int, s: nat)
    requires
        0 <= i <= n,
        1 <= s <= n,
    ensures
        ring_reach(n, i, (n + 1) as nat) == i,
        ring_reach(n, i, s) != i,
{
    lemma_reach_wrap(n, i, (n + 1) as nat);
    if s <= i {
        lemma_reach_down(n, i, s);
    } else {
        lemma_reach_wrap(n, i, s);
    }
}

/// The sum of a sequence of positions.
pub open spec fn seq_usize_sum(s: Seq<usize>) -> int
    decreases s.len(),
{
    if s.len() == 0 {
        0
    } else {
        s[0] + seq_usize_sum(s.drop_first())
    }
}

proof fn lemma_seq_sum_nonneg(s: Seq<usize>)
    ensures
        seq_usize_sum(s) >= 0,
    decreases s.len(),
{
    if s.len() > 0 {
        lemma_seq_sum_nonneg(s.drop_first());
    }
}

proof fn lemma_seq_sum_update(s: Seq<usize>, t: int, v: usize)
    requires
        0 <= t < s.len(),
    ensures
        seq_usize_sum(s.update(t, v)) == seq_usize_sum(s) - s[t] + v,
    decreases s.len(),
{
    if t == 0 {
        assert(s.update(0, v).drop_first() =~= s.drop_first());
    } else {
        assert(s.update(t, v).drop_first() =~= s.drop_first().update(t - 1, v));
        lemma_seq_sum_update(s.drop_first(), t - 1, v);
    }
}

/// One ring run in flight: the closed topology, the position each
/// injected train will be delivered at next, the countdown bookkeeping,
/// the shared payload, and the spec the run executes.
pub struct RingRun {
    pub ring: Ring,
    pub trains: Vec<usize>,
    pub decrements: u32,
    pub stopped: bool,
    pub data: Data,
    pub config: Spec,
}

impl RingRun {
    /// The number of followers; the cycle has `n() + 1` actors.
    pub open spec fn n(self) -> int {
        self.config.procs as int
    }

    /// The run invariant: the ring stays closed, every train sits on an
    /// actor, the decrement count and the root's remaining budget always
    /// partition the configured message count, a stopped run has spent
    /// the whole budget, and the payload was never mutated.
    pub open spec fn wf(self) -> bool {
        &&& self.ring.closed(self.n())
        &&& forall|t: int|
            0 <= t < self.trains@.len() ==> (#[trigger] self.trains@[t]) <= self.n()
        &&& self.decrements + self.ring.actors@[0].msgs == self.config.messages
        &&& (self.stopped ==> self.ring.actors@[0].msgs == 0)
        &&& self.data@.len() == self.config.size
    }

    /// The termination measure: every delivery of a still-running ring
    /// strictly decreases it, whichever train the scheduler picks.
    pub open spec fn measure(self) -> int {
        self.ring.actors@[0].msgs * (self.n() + 1) + seq_usize_sum(self.trains@)
    }

    /// The measure refined with the stop flag, so that the final,
    /// stopping delivery also makes progress.
    pub open spec fn progress(self) -> int {
        2 * self.measure() + if self.stopped {
            0int
        } else {
            1int
        }
    }

    /// Build the closed ring for `spec` and stage `spec.parallel`
    /// independent trains at the head, ready to run.
    pub fn new(spec: &Spec) -> (run: RingRun)
        requires
            spec.procs < u32::MAX,
        ensures
            run.wf(),
            run.config == *spec,
            run.trains@.len() == spec.parallel,
            run.decrements == 0,
            !run.stopped,
            run.ring.actors@[0].msgs == spec.messages,
            run.data@.len() == spec.size,
            forall|i: int| 0 <= i < run.data@.len() ==> run.data@[i] == 'x',
    {
        let mut ring = build_ring(spec);
        close_ring(&mut ring, spec.procs);
        let data = Data::new(spec.size);
        let mut trains: Vec<usize> = Vec::new();
        let mut t: u32 = 0;
        while t < spec.parallel
            invariant
                t <= spec.parallel,
                trains@.len() == t,
                forall|j: int|
                    0 <= j < t ==> (#[trigger] trains@[j]) == spec.procs as usize,
            decreases spec.parallel - t,
        {
            trains.push(spec.procs as usize);
            t = t + 1;
        }
        RingRun { ring, trains, decrements: 0, stopped: false, data, config: *spec }
    }

    /// Deliver the pending hop of train `t`: the actor the train sits on
    /// applies the relay decision.  Any train may be picked — the
    /// contract holds under arbitrary interleaving.
    pub fn step(&mut self, t: usize)
        requires
            old(self).wf(),
            !old(self).stopped,
            t < old(self).trains@.len(),
        ensures
            final(self).wf(),
            final(self).config == old(self).config,
            final(self).data@ == old(self).data@,
            final(self).trains@.len() == old(self).trains@.len(),
            ({
                let p = old(self).trains@[t as int] as int;
                let m = old(self).ring.actors@[0].msgs;
                &&& (final(self).stopped <==> p == 0 && m == 0)
                &&& (p > 0 ==> {
                    &&& final(self).decrements == old(self).decrements
                    &&& final(self).ring.actors@ == old(self).ring.actors@
                    &&& final(self).trains@ == old(self).trains@.update(
                        t as int,
                        (p - 1) as usize,
                    )
                })
                &&& (p == 0 && m > 0 ==> {
                    &&& final(self).decrements == old(self).decrements + 1
                    &&& final(self).ring.actors@[0].msgs == m - 1
                    &&& final(self).trains@ == old(self).trains@.update(
                        t as int,
                        old(self).n() as usize,
                    )
                })
                &&& (p == 0 && m == 0 ==> {
                    &&& final(self).decrements == old(self).decrements
                    &&& final(self).ring.actors@ == old(self).ring.actors@
                    &&& final(self).trains@ == old(self).trains@
                })
            }),
            !final(self).stopped ==> final(self).measure() == old(self).measure() - 1,
            final(self).stopped ==> final(self).measure() == old(self).measure(),
    {
        let ghost pre = *self;
        let p = self.trains[t];
        let mut actor = self.ring.actors[p];
        let r = actor.handle();
        match r {
            Ok(RingAction::Forward(nx)) => {
                self.ring.actors.set(p, actor);
                self.trains.set(t, nx as usize);
                if p == 0 {
                    self.decrements = self.decrements + 1;
                }
                proof {
                    lemma_seq_sum_update(pre.trains@, t as int, nx as usize);
                    if p == 0 {
                        assert(self.ring.actors@ =~= pre.ring.actors@.update(0, actor));
                        let m = pre.ring.actors@[0].msgs as int;
                        let w = pre.n() + 1;
                        assert((m - 1) * w == m * w - w) by (nonlinear_arith);
                    } else {
                        assert(self.ring.actors@ =~= pre.ring.actors@.update(p as int, actor));
                        assert(self.ring.actors@ =~= pre.ring.actors@);
                    }
                }
            },
            Ok(RingAction::Stop) => {
                self.ring.actors.set(p, actor);
                self.stopped = true;
                proof {
                    assert(self.ring.actors@ =~= pre.ring.actors@);
                }
            },
            Err(_) => {
                proof {
                    assert(false);
                }
            },
        }
    }

    /// Drive the run until the root ends it.  However many trains were
    /// injected, the root's countdown is decremented exactly
    /// `config.messages` times.
    pub fn run_to_completion(&mut self)
        requires
            old(self).wf(),
            !old(self).stopped,
            old(self).trains@.len() >= 1,
        ensures
            final(self).wf(),
            final(self).stopped,
            final(self).decrements == final(self).config.messages,
            final(self).config == old(self).config,
            final(self).data@ == old(self).data@,
    {
        while !self.stopped
            invariant
                self.wf(),
                self.trains@.len() >= 1,
                self.config == old(self).config,
                self.data@ == old(self).data@,
            decreases self.progress(),
        {
            self.step(0);
            proof {
                lemma_seq_sum_nonneg(self.trains@);
                assert(self.ring.actors@[0].msgs * (self.n() + 1) >= 0) by (nonlinear_arith)
                    requires self.ring.actors@[0].msgs >= 0 && self.n() >= 0,
                ;
            }
        }
    }
}

/// Law: whichever schedule the trains were delivered under, a finished
/// run has decremented the root's countdown exactly `messages` times.
pub proof fn lemma_run_decrement_total(run: RingRun)
    requires
        run.wf(),
        run.stopped,
    ensures
        run.decrements == run.config.messages,
{
}

/// Run one ring benchmark point: build the chain, close the cycle,
/// inject `spec.parallel` trains at the head, relay until the root ends
/// the run, and package the result.
pub fn run_ring(spec: &Spec) -> (r: BenchResult)
    requires
        spec.procs < u32::MAX,
        spec.parallel >= 1,
    ensures
        r.spec == *spec,
        r.name@ == "rust_shakespeare"@,
{
    let mut run = RingRun::new(spec);
    run.run_to_completion();
    BenchResult { name: String::from_str("rust_shakespeare"), spec: *spec }
}

} // verus!
