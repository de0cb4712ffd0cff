//! The dispatch engine: a FIFO message queue, an ordered registry of
//! (actor, optional predicate) registrations, and a worker cycle that drains
//! the queue and delivers each message to every accepting registration in
//! registration order, stopping at the first error (fail-fast) or once a
//! requested stop is observed.
//!
//! Delivery is recorded in a ghost log of `(registration index, message)`
//! entries, so contracts can pin down exactly who received what, in which
//! order.
use vstd::prelude::*;

use std::collections::VecDeque;

use super::actor::{Actor, ActorUri};
use super::{Error, MsgTrait, Predicate};

verus! {

/// A message addressed to one actor endpoint.
pub struct MessageFrame<M: MsgTrait> {
    pub to: ActorUri,
    pub msg: MessageBase<M>,
}

/// How a message expects to be answered.
pub enum MessageBase<M: MsgTrait> {
    OneWay(M),
    Ask(M),
}

/// One registration: an actor paired with an optional delivery predicate.
pub struct ActorPair<A, P> {
    pub actor: A,
    pub filter: Option<P>,
}

/// Whether a registration accepts a message: true when it has no predicate,
/// else the predicate's verdict.
pub open spec fn pair_accepts<M, A, P: Predicate<M>>(pair: ActorPair<A, P>, m: M) -> bool {
    match pair.filter {
        Option::None => true,
        Option::Some(f) => f.holds(&m),
    }
}

impl<A, P> ActorPair<A, P> {
    /// Pairs an actor with an optional predicate.
    pub fn new(actor: A, filter: Option<P>) -> (r: ActorPair<A, P>)
        ensures
            r == (ActorPair { actor, filter }),
    {
        ActorPair { actor, filter }
    }

    /// True if this registration wants the message.
    pub fn accept<M>(&self, m: &M) -> (r: bool) where P: Predicate<M>
        ensures
            r == pair_accepts(*self, *m),
    {
        match &self.filter {
            Option::None => true,
            Option::Some(f) => f.test(m),
        }
    }
}

/// Where the worker stands: still running, or ended with a terminal result.
pub enum RunState<E> {
    Running,
    Done(Result<(), E>),
}

/// The abstract state of a dispatcher: pending messages, registrations,
/// the stop flag, the worker state, and the log of every delivery made.
#[verifier::ext_equal]
pub struct BusView<M, E, A, P> {
    pub queue: Seq<M>,
    pub actors: Seq<ActorPair<A, P>>,
    pub stopped: bool,
    pub state: RunState<E>,
    pub log: Seq<(int, M)>,
}

/// Effect of `send`: the message joins the back of the queue.
pub open spec fn send_t<M, E, A, P>(v: BusView<M, E, A, P>, m: M) -> BusView<M, E, A, P> {
    BusView { queue: v.queue.push(m), ..v }
}

/// Effect of `stop`: the stop flag is set; nothing else changes.
pub open spec fn stop_t<M, E, A, P>(v: BusView<M, E, A, P>) -> BusView<M, E, A, P> {
    BusView { stopped: true, ..v }
}

/// Effect of `subscribe`: the registration is appended to the registry.
pub open spec fn subscribe_t<M, E, A, P>(
    v: BusView<M, E, A, P>,
    pair: ActorPair<A, P>,
) -> BusView<M, E, A, P> {
    BusView { actors: v.actors.push(pair), ..v }
}

/// The deliveries of message `m` among the first `n` registrations, in
/// registration order.
pub open spec fn msg_trace<M, A, P: Predicate<M>>(
    pairs: Seq<ActorPair<A, P>>,
    m: M,
    n: int,
) -> Seq<(int, M)>
    decreases n,
{
    if n <= 0 {
        Seq::empty()
    } else {
        msg_trace(pairs, m, n - 1) + (if pair_accepts(pairs[n - 1], m) {
            seq![(n - 1, m)]
        } else {
            Seq::empty()
        })
    }
}

/// The deliveries of a whole message sequence, message-major: all deliveries
/// of the first message before any of the second.
pub open spec fn full_trace<M, A, P: Predicate<M>>(
    pairs: Seq<ActorPair<A, P>>,
    msgs: Seq<M>,
) -> Seq<(int, M)>
    decreases msgs.len(),
{
    if msgs.len() == 0 {
        Seq::empty()
    } else {
        msg_trace(pairs, msgs[0], pairs.len() as int) + full_trace(pairs, msgs.drop_first())
    }
}

/// The messages a delivery log hands to registration `i`, in log order.
pub open spec fn msgs_for<M>(trace: Seq<(int, M)>, i: int) -> Seq<M>
    decreases trace.len(),
{
    if trace.len() == 0 {
        Seq::empty()
    } else {
        (if trace[0].0 == i {
            seq![trace[0].1]
        } else {
            Seq::empty()
        }) + msgs_for(trace.drop_first(), i)
    }
}

/// The subsequence of `msgs` that registration `i` accepts, in order.
pub open spec fn accepted_msgs<M, A, P: Predicate<M>>(
    pairs: Seq<ActorPair<A, P>>,
    i: int,
    msgs: Seq<M>,
) -> Seq<M>
    decreases msgs.len(),
{
    if msgs.len() == 0 {
        Seq::empty()
    } else {
        (if pair_accepts(pairs[i], msgs[0]) {
            seq![msgs[0]]
        } else {
            Seq::empty()
        }) + accepted_msgs(pairs, i, msgs.drop_first())
    }
}

/// Well-formedness: every logged delivery went to a then-registered
/// registration that accepted the message.
pub open spec fn wf<M, E, A, P: Predicate<M>>(v: BusView<M, E, A, P>) -> bool {
    forall|j: int|
        0 <= j < v.log.len() ==> {
            let e = #[trigger] v.log[j];
            0 <= e.0 < v.actors.len() && pair_accepts(v.actors[e.0], e.1)
        }
}

/// Effect of delivering one message `m` (already popped from the queue):
/// either every accepting registration received it, in registration order,
/// and the worker still runs; or some accepting registration `k` returned an
/// error, exactly the registrations accepting `m` up to and including `k`
/// received it, and the worker ended with that error.
pub open spec fn deliver_rel<M, E, A, P: Predicate<M>>(
    pre: BusView<M, E, A, P>,
    m: M,
    post: BusView<M, E, A, P>,
) -> bool {
    &&& post.queue == pre.queue
    &&& post.stopped == pre.stopped
    &&& post.actors.len() == pre.actors.len()
    &&& (forall|j: int|
        0 <= j < pre.actors.len() ==> (#[trigger] post.actors[j]).filter == pre.actors[j].filter)
    &&& {
        ||| {
            &&& post.state == pre.state
            &&& post.log == pre.log + msg_trace(pre.actors, m, pre.actors.len() as int)
        }
        ||| (exists|k: int|
            {
                &&& 0 <= k < pre.actors.len()
                &&& pair_accepts(#[trigger] pre.actors[k], m)
                &&& post.log == pre.log + msg_trace(pre.actors, m, k + 1)
                &&& post.state matches RunState::Done(Err(_))
            })
    }
}

/// The worker's stop check at the end of a cycle: a still-running worker
/// that sees the stop flag ends with success.
pub open spec fn observe_stop<M, E, A, P>(v: BusView<M, E, A, P>) -> BusView<M, E, A, P> {
    if v.state is Running && v.stopped {
        BusView { state: RunState::Done(Ok(())), ..v }
    } else {
        v
    }
}

/// One worker cycle: nothing happens once the worker has ended; otherwise
/// the oldest message (if any) is popped and delivered, and then the stop
/// flag is observed.
pub open spec fn cycle_rel<M, E, A, P: Predicate<M>>(
    pre: BusView<M, E, A, P>,
    post: BusView<M, E, A, P>,
) -> bool {
    if !(pre.state is Running) {
        post == pre
    } else if pre.queue.len() == 0 {
        post == observe_stop(pre)
    } else {
        exists|mid: BusView<M, E, A, P>|
            {
                &&& #[trigger] deliver_rel(
                    BusView { queue: pre.queue.drop_first(), ..pre },
                    pre.queue[0],
                    mid,
                )
                &&& post == observe_stop(mid)
            }
    }
}

/// `n` worker cycles in a row.
pub open spec fn cycles_rel<M, E, A, P: Predicate<M>>(
    pre: BusView<M, E, A, P>,
    post: BusView<M, E, A, P>,
    n: nat,
) -> bool
    decreases n,
{
    if n == 0 {
        post == pre
    } else {
        exists|mid: BusView<M, E, A, P>|
            #[trigger] cycle_rel(pre, mid) && cycles_rel(mid, post, (n - 1) as nat)
    }
}

/// A dispatcher: subscription, cooperative stop, and a blocking join that
/// yields the worker's terminal result.
pub trait Dispatcher<M, E, A, P>: Sized + View<V = BusView<M, E, A, P>> where
    A: Actor<M, E>,
    P: Predicate<M>,
 {
    /// Requests a cooperative stop; idempotent, never blocks.
    fn stop(&mut self)
        ensures
            final(self)@ == stop_t(old(self)@),
    ;

    /// Waits for the worker to end and yields its terminal result. In this
    /// engine the caller's wait is modelled by running the remaining worker
    /// cycles; a worker that was neither stopped nor already ended would
    /// never end, so that case is excluded.
    fn join(self) -> (r: Result<(), E>)
        requires
            self@.stopped || !(self@.state is Running),
        ensures
            self@.state matches RunState::Done(res) ==> r == res,
            exists|n: nat, post: BusView<M, E, A, P>|
                cycles_rel(self@, post, n) && post.state == RunState::Done(r),
    ;

    /// Appends a registration; it sees only messages delivered after it.
    fn subscribe(&mut self, actor: A, filter: Option<P>)
        ensures
            final(self)@ == subscribe_t(old(self)@, ActorPair { actor, filter }),
    ;
}

/// The dispatch engine itself.
pub struct AsyncDispatcher<M: MsgTrait, E: Error, A: Actor<M, E>, P: Predicate<M>> {
    queue: VecDeque<M>,
    actors: Vec<ActorPair<A, P>>,
    stopped: bool,
    state: RunState<E>,
    log: Ghost<Seq<(int, M)>>,
}

impl<M: MsgTrait, E: Error, A: Actor<M, E>, P: Predicate<M>> View for AsyncDispatcher<
    M,
    E,
    A,
    P,
> {
    type V = BusView<M, E, A, P>;

    closed spec fn view(&self) -> BusView<M, E, A, P> {
        BusView {
            queue: self.queue@,
            actors: self.actors@,
            stopped: self.stopped,
            state: self.state,
            log: self.log@,
        }
    }
}

impl<M: MsgTrait, E: Error, A: Actor<M, E>, P: Predicate<M>> AsyncDispatcher<M, E, A, P> {
    /// The state of a freshly built dispatcher: nothing queued, nobody
    /// registered, no stop requested, the worker running, nothing delivered.
    pub open spec fn empty_view() -> BusView<M, E, A, P> {
        BusView {
            queue: Seq::empty(),
            actors: Seq::empty(),
            stopped: false,
            state: RunState::Running,
            log: Seq::empty(),
        }
    }

    /// Builds an empty dispatcher, ready to run.
    pub fn new() -> (r: AsyncDispatcher<M, E, A, P>)
        ensures
            r@ == Self::empty_view(),
    {
        let r = AsyncDispatcher {
            queue: VecDeque::new(),
            actors: Vec::new(),
            stopped: false,
            state: RunState::Running,
            log: Ghost(Seq::empty()),
        };
        proof {
            assert(r@ =~= Self::empty_view());
        }
        r
    }

    /// Queues a message; never blocks, never fails, and does not itself
    /// deliver anything.
    pub fn send(&mut self, m: M)
        ensures
            final(self)@ == send_t(old(self)@, m),
    {
        self.queue.push_back(m);
        proof {
            assert(self@ =~= send_t(old(self)@, m));
        }
    }

    /// True while the worker has not ended.
    pub fn is_running(&self) -> (r: bool)
        ensures
            r == (self@.state is Running),
    {
        match &self.state {
            RunState::Running => true,
            RunState::Done(_) => false,
        }
    }

    /// How many messages wait in the queue.
    pub fn queue_len(&self) -> (r: usize)
        ensures
            r == self@.queue.len(),
    {
        self.queue.len()
    }

    /// True once a stop has been requested.
    pub fn is_stopped(&self) -> (r: bool)
        ensures
            r == self@.stopped,
    {
        self.stopped
    }

    /// Delivers one message to every accepting registration in registration
    /// order, stopping at the first error.
    fn deliver(&mut self, m: M)
        requires
            old(self)@.state is Running,
        ensures
            deliver_rel(old(self)@, m, final(self)@),
    {
        let ghost pre = self@;
        let n = self.actors.len();
        let mut i: usize = 0;
        while i < n
            invariant
                pre == old(self)@,
                n == pre.actors.len(),
                self@.actors.len() == n,
                0 <= i <= n,
                self@.queue == pre.queue,
                self@.stopped == pre.stopped,
                self@.state == pre.state,
                pre.state is Running,
                forall|j: int|
                    0 <= j < n ==> (#[trigger] self@.actors[j]).filter == pre.actors[j].filter,
                self@.log == pre.log + msg_trace(pre.actors, m, i as int),
            decreases n - i,
        {
            let ghost actors0 = self.actors@;
            let accepted = self.actors[i].accept(&m);
            proof {
                assert(pair_accepts(pre.actors[i as int], m) == pair_accepts(actors0[i as int], m));
            }
            if accepted {
                let mut pair = self.actors.remove(i);
                let res = pair.actor.on_receive(&m);
                self.actors.insert(i, pair);
                proof {
                    assert(self.actors@ =~= actors0.update(i as int, pair));
                    self.log@ = self.log@.push((i as int, m));
                }
                if let Err(e) = res {
                    self.state = RunState::Done(Err(e));
                    proof {
                        assert(msg_trace(pre.actors, m, i + 1) =~= msg_trace(pre.actors, m, i as int)
                            + seq![(i as int, m)]);
                        assert(self@.log =~= pre.log + msg_trace(pre.actors, m, i + 1));
                        assert(pair_accepts(pre.actors[i as int], m));
                        assert(deliver_rel(pre, m, self@));
                    }
                    return ;
                }
                proof {
                    assert(msg_trace(pre.actors, m, i + 1) =~= msg_trace(pre.actors, m, i as int)
                        + seq![(i as int, m)]);
                    assert(self@.log =~= pre.log + msg_trace(pre.actors, m, i + 1));
                }
            } else {
                proof {
                    assert(msg_trace(pre.actors, m, i + 1) =~= msg_trace(pre.actors, m, i as int));
                }
            }
            i = i + 1;
        }
        proof {
            assert(deliver_rel(pre, m, self@));
        }
    }

    /// One worker cycle: pop and deliver the oldest message if there is
    /// one, then observe the stop flag.
    pub fn step(&mut self)
        ensures
            cycle_rel(old(self)@, final(self)@),
    {
        let ghost pre = self@;
        if !self.is_running() {
            return ;
        }
        let popped = self.queue.pop_front();
        let ghost pre2 = self@;
        match popped {
            Option::Some(m) => {
                proof {
                    assert(pre2 =~= (BusView { queue: pre.queue.drop_first(), ..pre }));
                }
                self.deliver(m);
            },
            Option::None => {},
        }
        let ghost mid = self@;
        if self.stopped && self.is_running() {
            self.state = RunState::Done(Ok(()));
            proof {
                assert(self@ =~= observe_stop(mid));
            }
        } else {
            proof {
                assert(self@ =~= observe_stop(mid));
            }
        }
        proof {
            if pre.queue.len() == 0 {
                assert(mid =~= pre);
            }
            assert(cycle_rel(pre, self@));
        }
    }

}

/// The worker's loop: runs cycles until the queue is drained or the worker
/// ends; a requested stop is observed no later than the first idle cycle.
pub fn run<M: MsgTrait, E: Error, A: Actor<M, E>, P: Predicate<M>>(
    d: &mut AsyncDispatcher<M, E, A, P>,
)
    ensures
        exists|n: nat| cycles_rel(old(d)@, final(d)@, n),
        final(d)@.stopped == old(d)@.stopped,
        !(final(d)@.state is Running) || (final(d)@.queue.len() == 0 && !final(d)@.stopped),
{
    let ghost start = d@;
    let ghost mut count: nat = 0nat;
    while d.is_running() && d.queue_len() > 0
        invariant
            start == old(d)@,
            cycles_rel(start, d@, count),
            d@.stopped == start.stopped,
        decreases d@.queue.len(),
    {
        let ghost prev = d@;
        d.step();
        proof {
            lemma_cycles_snoc(start, prev, d@, count);
            count = count + 1;
            lemma_cycle_stopped(prev, d@);
        }
    }
    if d.is_stopped() && d.is_running() {
        let ghost prev = d@;
        d.step();
        proof {
            lemma_cycles_snoc(start, prev, d@, count);
            count = count + 1;
            lemma_cycle_stopped(prev, d@);
        }
    }
    proof {
        assert(cycles_rel(start, d@, count));
    }
}

impl<M: MsgTrait, E: Error, A: Actor<M, E>, P: Predicate<M>> Dispatcher<M, E, A, P>
    for AsyncDispatcher<M, E, A, P> {
    fn stop(&mut self) {
        self.stopped = true;
        proof {
            assert(self@ =~= stop_t(old(self)@));
        }
    }

    fn join(self) -> (r: Result<(), E>) {
        let ghost start = self@;
        let mut d = self;
        run(&mut d);
        let ghost after = d@;
        proof {
            if !(start.state is Running) {
                let n = choose|n: nat| cycles_rel(start, after, n);
                lemma_cycles_terminal(start, after, n);
            }
        }
        match d.state {
            RunState::Done(res) => res,
            RunState::Running => {
                proof {
                    assert(false);
                }
                Ok(())
            },
        }
    }

    fn subscribe(&mut self, actor: A, filter: Option<P>) {
        self.actors.push(ActorPair::new(actor, filter));
        proof {
            assert(self@ =~= subscribe_t(old(self)@, ActorPair { actor, filter }));
        }
    }
}

/// A cycle never changes the stop flag.
pub proof fn lemma_cycle_stopped<M, E, A, P: Predicate<M>>(
    pre: BusView<M, E, A, P>,
    post: BusView<M, E, A, P>,
)
    requires
        cycle_rel(pre, post),
    ensures
        post.stopped == pre.stopped,
{
}

/// Cycles compose: one more cycle after `n` cycles makes `n + 1` cycles.
pub proof fn lemma_cycles_snoc<M, E, A, P: Predicate<M>>(
    pre: BusView<M, E, A, P>,
    mid: BusView<M, E, A, P>,
    post: BusView<M, E, A, P>,
    n: nat,
)
    requires
        cycles_rel(pre, mid, n),
        cycle_rel(mid, post),
    ensures
        cycles_rel(pre, post, n + 1),
    decreases n,
{
    if n == 0 {
        assert(cycle_rel(pre, post));
        assert(cycles_rel(post, post, 0));
    } else {
        let m2 = choose|m2: BusView<M, E, A, P>|
            cycle_rel(pre, m2) && cycles_rel(m2, mid, (n - 1) as nat);
        lemma_cycles_snoc(m2, mid, post, (n - 1) as nat);
    }
}

/// Law (fail-fast, terminal half): once the worker has ended, no number of
/// further cycles changes anything, so nothing more is ever delivered.
pub proof fn lemma_cycles_terminal<M, E, A, P: Predicate<M>>(
    pre: BusView<M, E, A, P>,
    post: BusView<M, E, A, P>,
    n: nat,
)
    requires
        cycles_rel(pre, post, n),
        !(pre.state is Running),
    ensures
        post == pre,
    decreases n,
{
    if n > 0 {
        let mid = choose|mid: BusView<M, E, A, P>|
            cycle_rel(pre, mid) && cycles_rel(mid, post, (n - 1) as nat);
        lemma_cycles_terminal(mid, post, (n - 1) as nat);
    }
}

/// Law (idempotent stop): requesting a stop twice is the same as once.
pub proof fn lemma_stop_idempotent<M, E, A, P>(v: BusView<M, E, A, P>)
    ensures
        stop_t(stop_t(v)) == stop_t(v),
{
    assert(stop_t(stop_t(v)) =~= stop_t(v));
}

/// Projecting one registration out of a concatenated log splits accordingly.
pub proof fn lemma_msgs_for_add<M>(a: Seq<(int, M)>, b: Seq<(int, M)>, i: int)
    ensures
        msgs_for(a + b, i) == msgs_for(a, i) + msgs_for(b, i),
    decreases a.len(),
{
    if a.len() == 0 {
        assert(a + b =~= b);
        assert(msgs_for(a, i) + msgs_for(b, i) =~= msgs_for(b, i));
    } else {
        assert((a + b).drop_first() =~= a.drop_first() + b);
        lemma_msgs_for_add(a.drop_first(), b, i);
        assert(msgs_for(a + b, i) =~= msgs_for(a, i) + msgs_for(b, i));
    }
}

/// Within one message's deliveries, registration `i` sees the message once
/// if it accepts it and is among the first `n` registrations, else not at all.
pub proof fn lemma_msg_trace_for_actor<M, A, P: Predicate<M>>(
    pairs: Seq<ActorPair<A, P>>,
    m: M,
    n: int,
    i: int,
)
    ensures
        msgs_for(msg_trace(pairs, m, n), i) == if 0 <= i < n && pair_accepts(pairs[i], m) {
            seq![m]
        } else {
            Seq::<M>::empty()
        },
    decreases n,
{
    if n <= 0 {
    } else {
        lemma_msg_trace_for_actor(pairs, m, n - 1, i);
        let tail: Seq<(int, M)> = if pair_accepts(pairs[n - 1], m) {
            seq![(n - 1, m)]
        } else {
            Seq::empty()
        };
        lemma_msgs_for_add(msg_trace(pairs, m, n - 1), tail, i);
        assert(msgs_for(Seq::<(int, M)>::empty(), i) =~= Seq::<M>::empty());
        if pair_accepts(pairs[n - 1], m) {
            assert(tail.drop_first() =~= Seq::<(int, M)>::empty());
            assert(msgs_for(tail, i) =~= if i == n - 1 { seq![m] } else { Seq::<M>::empty() });
        } else {
            assert(msgs_for(tail, i) =~= Seq::<M>::empty());
        }
        assert(msgs_for(msg_trace(pairs, m, n), i) =~= if 0 <= i < n && pair_accepts(pairs[i], m) {
            seq![m]
        } else {
            Seq::<M>::empty()
        });
    }
}

/// Law (FIFO delivery with predicate routing): over a full dispatch of
/// `msgs`, registration `i` receives exactly the messages its predicate
/// accepts, in the order they were sent.
pub proof fn lemma_fifo<M, A, P: Predicate<M>>(
    pairs: Seq<ActorPair<A, P>>,
    msgs: Seq<M>,
    i: int,
)
    requires
        0 <= i < pairs.len(),
    ensures
        msgs_for(full_trace(pairs, msgs), i) == accepted_msgs(pairs, i, msgs),
    decreases msgs.len(),
{
    if msgs.len() == 0 {
    } else {
        lemma_fifo(pairs, msgs.drop_first(), i);
        lemma_msgs_for_add(
            msg_trace(pairs, msgs[0], pairs.len() as int),
            full_trace(pairs, msgs.drop_first()),
            i,
        );
        lemma_msg_trace_for_actor(pairs, msgs[0], pairs.len() as int, i);
        assert(msgs_for(full_trace(pairs, msgs), i) =~= accepted_msgs(pairs, i, msgs));
    }
}

/// Every delivery in one message's trace goes to a registration below `n`
/// that accepts the message, and carries that very message.
pub proof fn lemma_msg_trace_accepted<M, A, P: Predicate<M>>(
    pairs: Seq<ActorPair<A, P>>,
    m: M,
    n: int,
)
    ensures
        forall|j: int|
            0 <= j < msg_trace(pairs, m, n).len() ==> {
                let e = #[trigger] msg_trace(pairs, m, n)[j];
                0 <= e.0 < n && pair_accepts(pairs[e.0], e.1) && e.1 == m
            },
    decreases n,
{
    if n > 0 {
        lemma_msg_trace_accepted(pairs, m, n - 1);
        let a = msg_trace(pairs, m, n - 1);
        let t = msg_trace(pairs, m, n);
        assert forall|j: int| 0 <= j < t.len() implies {
            let e = #[trigger] t[j];
            0 <= e.0 < n && pair_accepts(pairs[e.0], e.1) && e.1 == m
        } by {
            if j < a.len() {
                assert(t[j] == a[j]);
            } else {
                assert(pair_accepts(pairs[n - 1], m));
                assert(t[j] == (n - 1, m));
            }
        }
    }
}

/// Law (predicate filtering): every delivery in a full dispatch goes to a
/// registered pair whose predicate accepts the delivered message.
pub proof fn lemma_trace_accepted<M, A, P: Predicate<M>>(pairs: Seq<ActorPair<A, P>>, msgs: Seq<M>)
    ensures
        forall|j: int|
            0 <= j < full_trace(pairs, msgs).len() ==> {
                let e = #[trigger] full_trace(pairs, msgs)[j];
                0 <= e.0 < pairs.len() && pair_accepts(pairs[e.0], e.1)
            },
    decreases msgs.len(),
{
    if msgs.len() > 0 {
        lemma_msg_trace_accepted(pairs, msgs[0], pairs.len() as int);
        lemma_trace_accepted(pairs, msgs.drop_first());
        let a = msg_trace(pairs, msgs[0], pairs.len() as int);
        let b = full_trace(pairs, msgs.drop_first());
        let t = full_trace(pairs, msgs);
        assert forall|j: int| 0 <= j < t.len() implies {
            let e = #[trigger] t[j];
            0 <= e.0 < pairs.len() && pair_accepts(pairs[e.0], e.1)
        } by {
            if j < a.len() {
                assert(t[j] == a[j]);
            } else {
                assert(t[j] == b[j - a.len()]);
            }
        }
    }
}

/// Law (fail-fast truncation keeps order): cutting a delivery log short
/// cuts each registration's view to a prefix; it never reorders.
pub proof fn lemma_msgs_for_take<M>(trace: Seq<(int, M)>, k: int, i: int)
    requires
        0 <= k <= trace.len(),
    ensures
        msgs_for(trace, i) == msgs_for(trace.take(k), i) + msgs_for(trace.skip(k), i),
{
    assert(trace =~= trace.take(k) + trace.skip(k));
    lemma_msgs_for_add(trace.take(k), trace.skip(k), i);
}

/// Law (late subscription): a newly appended registration has received
/// nothing in any well-formed log from before its subscription.
pub proof fn lemma_late_subscription<M, E, A, P: Predicate<M>>(
    v: BusView<M, E, A, P>,
    pair: ActorPair<A, P>,
)
    requires
        wf(v),
    ensures
        forall|j: int|
            0 <= j < subscribe_t(v, pair).log.len() ==> (#[trigger] subscribe_t(v, pair).log[j]).0
                != subscribe_t(v, pair).actors.len() - 1,
{
}

/// Sending preserves well-formedness.
pub proof fn lemma_send_preserves_wf<M, E, A, P: Predicate<M>>(v: BusView<M, E, A, P>, m: M)
    requires
        wf(v),
    ensures
        wf(send_t(v, m)),
{
}

/// Requesting a stop preserves well-formedness.
pub proof fn lemma_stop_preserves_wf<M, E, A, P: Predicate<M>>(v: BusView<M, E, A, P>)
    requires
        wf(v),
    ensures
        wf(stop_t(v)),
{
}

/// Subscribing preserves well-formedness.
pub proof fn lemma_subscribe_preserves_wf<M, E, A, P: Predicate<M>>(
    v: BusView<M, E, A, P>,
    pair: ActorPair<A, P>,
)
    requires
        wf(v),
    ensures
        wf(subscribe_t(v, pair)),
{
}

/// A worker cycle preserves well-formedness: everything it logs went to an
/// accepting registration, and predicates never change.
pub proof fn lemma_cycle_preserves_wf<M, E, A, P: Predicate<M>>(
    pre: BusView<M, E, A, P>,
    post: BusView<M, E, A, P>,
)
    requires
        wf(pre),
        cycle_rel(pre, post),
    ensures
        wf(post),
{
    if pre.state is Running && pre.queue.len() > 0 {
        let pre2 = BusView { queue: pre.queue.drop_first(), ..pre };
        let m = pre.queue[0];
        let mid = choose|mid: BusView<M, E, A, P>|
            deliver_rel(pre2, m, mid) && post == observe_stop(mid);
        lemma_msg_trace_accepted(pre2.actors, m, pre2.actors.len() as int);
        assert forall|j: int| 0 <= j < mid.log.len() implies {
            let e = #[trigger] mid.log[j];
            0 <= e.0 < mid.actors.len() && pair_accepts(mid.actors[e.0], e.1)
        } by {
            if j < pre2.log.len() {
                assert(mid.log[j] == pre2.log[j]);
                let e = mid.log[j];
                assert(pair_accepts(pre2.actors[e.0], e.1));
                assert(mid.actors[e.0].filter == pre2.actors[e.0].filter);
            } else {
                let e = mid.log[j];
                if mid.state == pre2.state {
                    assert(e == msg_trace(pre2.actors, m, pre2.actors.len() as int)[j
                        - pre2.log.len()]);
                } else {
                    let k = choose|k: int|
                        0 <= k < pre2.actors.len() && pair_accepts(
                            #[trigger] pre2.actors[k],
                            m,
                        ) && mid.log == pre2.log + msg_trace(pre2.actors, m, k + 1)
                            && mid.state matches RunState::Done(Err(_));
                    lemma_msg_trace_accepted(pre2.actors, m, k + 1);
                    assert(e == msg_trace(pre2.actors, m, k + 1)[j - pre2.log.len()]);
                }
                assert(pair_accepts(pre2.actors[e.0], e.1));
                assert(mid.actors[e.0].filter == pre2.actors[e.0].filter);
            }
        }
    }
}

/// Acceptance reads only the predicate, so one message's trace agrees
/// between registries carrying the same filters.
pub proof fn lemma_msg_trace_same_filters<M, A, P: Predicate<M>>(
    a: Seq<ActorPair<A, P>>,
    b: Seq<ActorPair<A, P>>,
    m: M,
    n: int,
)
    requires
        a.len() == b.len(),
        forall|j: int| 0 <= j < a.len() ==> (#[trigger] a[j]).filter == b[j].filter,
        n <= a.len(),
    ensures
        msg_trace(a, m, n) == msg_trace(b, m, n),
    decreases n,
{
    if n > 0 {
        lemma_msg_trace_same_filters(a, b, m, n - 1);
        assert(pair_accepts(a[n - 1], m) == pair_accepts(b[n - 1], m));
        assert(msg_trace(a, m, n) =~= msg_trace(b, m, n));
    }
}

/// A whole dispatch's trace agrees between registries carrying the same
/// filters.
pub proof fn lemma_full_trace_same_filters<M, A, P: Predicate<M>>(
    a: Seq<ActorPair<A, P>>,
    b: Seq<ActorPair<A, P>>,
    msgs: Seq<M>,
)
    requires
        a.len() == b.len(),
        forall|j: int| 0 <= j < a.len() ==> (#[trigger] a[j]).filter == b[j].filter,
    ensures
        full_trace(a, msgs) == full_trace(b, msgs),
    decreases msgs.len(),
{
    if msgs.len() > 0 {
        lemma_msg_trace_same_filters(a, b, msgs[0], a.len() as int);
        lemma_full_trace_same_filters(a, b, msgs.drop_first());
        assert(full_trace(a, msgs) =~= full_trace(b, msgs));
    }
}

/// Law (FIFO delivery at the bus): worker cycles that drain the queue
/// without the worker ending deliver exactly the queued messages' full
/// trace, appended to the log in order; with `lemma_fifo`, every
/// registration therefore observes the accepted messages in send order.
pub proof fn lemma_cycles_deliver_everything<M, E, A, P: Predicate<M>>(
    pre: BusView<M, E, A, P>,
    post: BusView<M, E, A, P>,
    n: nat,
)
    requires
        cycles_rel(pre, post, n),
        pre.state is Running,
        post.state is Running,
        post.queue.len() == 0,
    ensures
        post.log == pre.log + full_trace(pre.actors, pre.queue),
        post.actors.len() == pre.actors.len(),
        forall|j: int|
            0 <= j < pre.actors.len() ==> (#[trigger] post.actors[j]).filter
                == pre.actors[j].filter,
    decreases n,
{
    if n == 0 {
        assert(post == pre);
        assert(pre.queue =~= Seq::<M>::empty());
        assert(post.log =~= pre.log + full_trace(pre.actors, pre.queue));
    } else {
        let mid = choose|mid: BusView<M, E, A, P>|
            #[trigger] cycle_rel(pre, mid) && cycles_rel(mid, post, (n - 1) as nat);
        if !(mid.state is Running) {
            lemma_cycles_terminal(mid, post, (n - 1) as nat);
            assert(false);
        }
        if pre.queue.len() == 0 {
            assert(mid == observe_stop(pre));
            assert(mid == pre);
            lemma_cycles_deliver_everything(mid, post, (n - 1) as nat);
            assert(pre.queue =~= Seq::<M>::empty());
            assert(post.log =~= pre.log + full_trace(pre.actors, pre.queue));
        } else {
            let pre2 = BusView { queue: pre.queue.drop_first(), ..pre };
            let m = pre.queue[0];
            let mid2 = choose|mid2: BusView<M, E, A, P>|
                #[trigger] deliver_rel(pre2, m, mid2) && mid == observe_stop(mid2);
            assert(mid2.state is Running) by {
                if !(mid2.state is Running) {
                    assert(mid == mid2);
                }
            }
            assert(mid == mid2);
            assert(mid.log == pre.log + msg_trace(pre.actors, m, pre.actors.len() as int));
            lemma_cycles_deliver_everything(mid, post, (n - 1) as nat);
            lemma_full_trace_same_filters(mid.actors, pre.actors, mid.queue);
            assert(full_trace(pre.actors, pre.queue) == msg_trace(
                pre.actors,
                m,
                pre.actors.len() as int,
            ) + full_trace(pre.actors, pre.queue.drop_first()));
            assert(post.log =~= pre.log + full_trace(pre.actors, pre.queue));
        }
    }
}

/// Splitting off one message from a truncated queue splits its trace.
pub proof fn lemma_full_trace_take_step<M, A, P: Predicate<M>>(
    pairs: Seq<ActorPair<A, P>>,
    q: Seq<M>,
    j: int,
)
    requires
        0 <= j,
        j + 1 <= q.len(),
    ensures
        full_trace(pairs, q.take(j + 1)) == msg_trace(pairs, q[0], pairs.len() as int)
            + full_trace(pairs, q.drop_first().take(j)),
{
    let t = q.take(j + 1);
    assert(t[0] == q[0]);
    assert(t.drop_first() =~= q.drop_first().take(j));
}

/// Law (fail-fast): if a run of worker cycles ends with an error, then some
/// queued message `j` failed at some accepting registration `k`: the log
/// grew by the full trace of the messages before `j`, then the deliveries
/// of message `j` up to and including `k`, and nothing after that --
/// messages behind the failing one reach nobody.
pub proof fn lemma_cycles_fail_fast<M, E, A, P: Predicate<M>>(
    pre: BusView<M, E, A, P>,
    post: BusView<M, E, A, P>,
    n: nat,
)
    requires
        cycles_rel(pre, post, n),
        pre.state is Running,
        post.state matches RunState::Done(Err(_)),
    ensures
        exists|j: int, k: int|
            #![trigger pre.queue[j], pre.actors[k]]
            {
                &&& 0 <= j < pre.queue.len()
                &&& 0 <= k < pre.actors.len()
                &&& pair_accepts(pre.actors[k], pre.queue[j])
                &&& post.log == pre.log + full_trace(pre.actors, pre.queue.take(j)) + msg_trace(
                    pre.actors,
                    pre.queue[j],
                    k + 1,
                )
            },
    decreases n,
{
    assert(n > 0);
    let mid = choose|mid: BusView<M, E, A, P>|
        #[trigger] cycle_rel(pre, mid) && cycles_rel(mid, post, (n - 1) as nat);
    if pre.queue.len() == 0 {
        assert(mid == observe_stop(pre));
        if !(mid.state is Running) {
            lemma_cycles_terminal(mid, post, (n - 1) as nat);
            assert(false);
        }
        assert(mid == pre);
        lemma_cycles_fail_fast(mid, post, (n - 1) as nat);
    } else {
        let pre2 = BusView { queue: pre.queue.drop_first(), ..pre };
        let m = pre.queue[0];
        let mid2 = choose|mid2: BusView<M, E, A, P>|
            #[trigger] deliver_rel(pre2, m, mid2) && mid == observe_stop(mid2);
        if mid2.state is Running {
            assert(mid2.log == pre.log + msg_trace(pre.actors, m, pre.actors.len() as int));
            if !(mid.state is Running) {
                // The stop flag was observed: the run ended with success,
                // not with an error.
                lemma_cycles_terminal(mid, post, (n - 1) as nat);
                assert(false);
            }
            assert(mid == mid2);
            lemma_cycles_fail_fast(mid, post, (n - 1) as nat);
            let (j2, k2) = choose|j2: int, k2: int|
                #![trigger mid.queue[j2], mid.actors[k2]]
                {
                    &&& 0 <= j2 < mid.queue.len()
                    &&& 0 <= k2 < mid.actors.len()
                    &&& pair_accepts(mid.actors[k2], mid.queue[j2])
                    &&& post.log == mid.log + full_trace(mid.actors, mid.queue.take(j2))
                        + msg_trace(mid.actors, mid.queue[j2], k2 + 1)
                };
            let j = j2 + 1;
            assert(pre.queue[j] == mid.queue[j2]);
            assert(pair_accepts(pre.actors[k2], pre.queue[j])) by {
                assert(mid.actors[k2].filter == pre.actors[k2].filter);
            }
            lemma_full_trace_same_filters(mid.actors, pre.actors, mid.queue.take(j2));
            lemma_msg_trace_same_filters(mid.actors, pre.actors, mid.queue[j2], k2 + 1);
            lemma_full_trace_take_step(pre.actors, pre.queue, j2);
            assert(pre.queue.drop_first().take(j2) =~= mid.queue.take(j2));
            assert(post.log =~= pre.log + full_trace(pre.actors, pre.queue.take(j)) + msg_trace(
                pre.actors,
                pre.queue[j],
                k2 + 1,
            ));
        } else {
            assert(mid == mid2);
            lemma_cycles_terminal(mid, post, (n - 1) as nat);
            assert(post == mid2);
            let k = choose|k: int|
                {
                    &&& 0 <= k < pre2.actors.len()
                    &&& pair_accepts(#[trigger] pre2.actors[k], m)
                    &&& mid2.log == pre2.log + msg_trace(pre2.actors, m, k + 1)
                    &&& mid2.state matches RunState::Done(Err(_))
                };
            assert(pre.queue.take(0) =~= Seq::<M>::empty());
            assert(full_trace(pre.actors, pre.queue.take(0)) =~= Seq::<(int, M)>::empty());
            assert(post.log =~= pre.log + full_trace(pre.actors, pre.queue.take(0)) + msg_trace(
                pre.actors,
                pre.queue[0],
                k + 1,
            ));
            assert(0 <= 0 < pre.queue.len() && 0 <= k < pre.actors.len() && pair_accepts(
                pre.actors[k],
                pre.queue[0],
            ));
        }
    }
}

} // verus!
