//! An earlier, simpler draft of the event dispatch engine: no predicates,
//! every registered actor receives every message, in registration order,
//! with the same fail-fast and cooperative-stop behaviour as the full
//! engine in `react`.
use vstd::prelude::*;
use vstd::string::StringExecFns;

use std::collections::VecDeque;

use crate::react::dispatcher::{msgs_for, lemma_msgs_for_add, RunState};

verus! {

/// A registered callback able to receive messages.
pub trait Actor<M, E>: Sized {
    /// Handles one delivered message; an error stops the dispatch loop.
    fn on_receive(&mut self, m: &M) -> Result<(), E>;
}

/// The abstract state of an event dispatcher.
#[verifier::ext_equal]
pub struct EventView<M, E, A> {
    pub queue: Seq<M>,
    pub actors: Seq<A>,
    pub stopped: bool,
    pub state: RunState<E>,
    pub log: Seq<(int, M)>,
}

/// Effect of `send`: the message joins the back of the queue.
pub open spec fn event_send_t<M, E, A>(v: EventView<M, E, A>, m: M) -> EventView<M, E, A> {
    EventView { queue: v.queue.push(m), ..v }
}

/// Effect of `stop`: the stop flag is set; nothing else changes.
pub open spec fn event_stop_t<M, E, A>(v: EventView<M, E, A>) -> EventView<M, E, A> {
    EventView { stopped: true, ..v }
}

/// The deliveries of one message to the first `n` actors, in order.
pub open spec fn bcast_trace<M>(n: int, m: M) -> Seq<(int, M)>
    decreases n,
{
    if n <= 0 {
        Seq::empty()
    } else {
        bcast_trace(n - 1, m) + seq![(n - 1, m)]
    }
}

/// The deliveries of a whole message sequence to `n` actors, message-major.
pub open spec fn bcast_full_trace<M>(n: int, msgs: Seq<M>) -> Seq<(int, M)>
    decreases msgs.len(),
{
    if msgs.len() == 0 {
        Seq::empty()
    } else {
        bcast_trace(n, msgs[0]) + bcast_full_trace(n, msgs.drop_first())
    }
}

/// Effect of delivering one message: all actors received it in order and the
/// worker still runs, or actor `k` returned an error, exactly actors
/// `0 ..= k` received it, and the worker ended with that error.
pub open spec fn event_deliver_rel<M, E, A>(
    pre: EventView<M, E, A>,
    m: M,
    post: EventView<M, E, A>,
) -> bool {
    &&& post.queue == pre.queue
    &&& post.stopped == pre.stopped
    &&& post.actors.len() == pre.actors.len()
    &&& {
        ||| {
            &&& post.state == pre.state
            &&& post.log == pre.log + bcast_trace(pre.actors.len() as int, m)
        }
        ||| (exists|k: int|
            {
                &&& 0 <= k < pre.actors.len()
                &&& post.log == pre.log + #[trigger] bcast_trace(k + 1, m)
                &&& post.state matches RunState::Done(Err(_))
            })
    }
}

/// The worker's stop check at the end of a cycle.
pub open spec fn event_observe_stop<M, E, A>(v: EventView<M, E, A>) -> EventView<M, E, A> {
    if v.state is Running && v.stopped {
        EventView { state: RunState::Done(Ok(())), ..v }
    } else {
        v
    }
}

/// One worker cycle of the event dispatcher.
pub open spec fn event_cycle_rel<M, E, A>(pre: EventView<M, E, A>, post: EventView<M, E, A>) -> bool {
    if !(pre.state is Running) {
        post == pre
    } else if pre.queue.len() == 0 {
        post == event_observe_stop(pre)
    } else {
        exists|mid: EventView<M, E, A>|
            {
                &&& #[trigger] event_deliver_rel(
                    EventView { queue: pre.queue.drop_first(), ..pre },
                    pre.queue[0],
                    mid,
                )
                &&& post == event_observe_stop(mid)
            }
    }
}

/// `n` worker cycles in a row.
pub open spec fn event_cycles_rel<M, E, A>(
    pre: EventView<M, E, A>,
    post: EventView<M, E, A>,
    n: nat,
) -> bool
    decreases n,
{
    if n == 0 {
        post == pre
    } else {
        exists|mid: EventView<M, E, A>|
            #[trigger] event_cycle_rel(pre, mid) && event_cycles_rel(mid, post, (n - 1) as nat)
    }
}

/// The event dispatch engine: queue, registry, stop flag and worker state.
pub struct EventDispatcher<M, E, A: Actor<M, E>> {
    actors: Vec<A>,
    queue: VecDeque<M>,
    stopped: bool,
    state: RunState<E>,
    log: Ghost<Seq<(int, M)>>,
}

impl<M, E, A: Actor<M, E>> View for EventDispatcher<M, E, A> {
    type V = EventView<M, E, A>;

    closed spec fn view(&self) -> EventView<M, E, A> {
        EventView {
            queue: self.queue@,
            actors: self.actors@,
            stopped: self.stopped,
            state: self.state,
            log: self.log@,
        }
    }
}

impl<M, E, A: Actor<M, E>> EventDispatcher<M, E, A> {
    /// Builds a dispatcher seeded with the given actors, ready to run.
    pub fn new(actors: Vec<A>) -> (r: EventDispatcher<M, E, A>)
        ensures
            r@ == (EventView {
                queue: Seq::<M>::empty(),
                actors: actors@,
                stopped: false,
                state: RunState::<E>::Running,
                log: Seq::<(int, M)>::empty(),
            }),
    {
        let r = EventDispatcher {
            actors,
            queue: VecDeque::new(),
            stopped: false,
            state: RunState::Running,
            log: Ghost(Seq::empty()),
        };
        proof {
            assert(r@ =~= (EventView {
                queue: Seq::<M>::empty(),
                actors: r@.actors,
                stopped: false,
                state: RunState::<E>::Running,
                log: Seq::<(int, M)>::empty(),
            }));
        }
        r
    }

    /// Requests a cooperative stop; idempotent, never blocks.
    pub fn stop(&mut self)
        ensures
            final(self)@ == event_stop_t(old(self)@),
    {
        self.stopped = true;
        proof {
            assert(self@ =~= event_stop_t(old(self)@));
        }
    }

    /// Queues a message; never blocks and delivers nothing itself.
    pub fn send(&mut self, m: M)
        ensures
            final(self)@ == event_send_t(old(self)@, m),
    {
        self.queue.push_back(m);
        proof {
            assert(self@ =~= event_send_t(old(self)@, m));
        }
    }

    /// True while the worker has not ended.
    pub fn is_running(&self) -> (r: bool)
        ensures
            r == (self@.state is Running),
    {
        match &self.state {
            RunState::Running => true,
            RunState::Done(_) => false,
        }
    }

    /// How many messages wait in the queue.
    pub fn queue_len(&self) -> (r: usize)
        ensures
            r == self@.queue.len(),
    {
        self.queue.len()
    }

    /// True once a stop has been requested.
    pub fn is_stopped(&self) -> (r: bool)
        ensures
            r == self@.stopped,
    {
        self.stopped
    }

    /// Delivers one message to every actor in registration order, stopping
    /// at the first error.
    fn deliver(&mut self, m: M)
        requires
            old(self)@.state is Running,
        ensures
            event_deliver_rel(old(self)@, m, final(self)@),
    {
        let ghost pre = self@;
        let n = self.actors.len();
        let mut i: usize = 0;
        while i < n
            invariant
                pre == old(self)@,
                n == pre.actors.len(),
                self@.actors.len() == n,
                0 <= i <= n,
                self@.queue == pre.queue,
                self@.stopped == pre.stopped,
                self@.state == pre.state,
                pre.state is Running,
                self@.log == pre.log + bcast_trace(i as int, m),
            decreases n - i,
        {
            let ghost actors0 = self.actors@;
            let mut actor = self.actors.remove(i);
            let res = actor.on_receive(&m);
            self.actors.insert(i, actor);
            proof {
                assert(self.actors@ =~= actors0.update(i as int, actor));
                self.log@ = self.log@.push((i as int, m));
                assert(bcast_trace(i + 1, m) =~= bcast_trace(i as int, m) + seq![(i as int, m)]);
                assert(self@.log =~= pre.log + bcast_trace(i + 1, m));
            }
            if let Err(e) = res {
                self.state = RunState::Done(Err(e));
                proof {
                    assert(event_deliver_rel(pre, m, self@));
                }
                return ;
            }
            i = i + 1;
        }
        proof {
            assert(event_deliver_rel(pre, m, self@));
        }
    }

    /// One worker cycle: pop and deliver the oldest message if there is
    /// one, then observe the stop flag.
    pub fn step(&mut self)
        ensures
            event_cycle_rel(old(self)@, final(self)@),
    {
        let ghost pre = self@;
        if !self.is_running() {
            return ;
        }
        let popped = self.queue.pop_front();
        let ghost pre2 = self@;
        match popped {
            Option::Some(m) => {
                proof {
                    assert(pre2 =~= (EventView { queue: pre.queue.drop_first(), ..pre }));
                }
                self.deliver(m);
            },
            Option::None => {},
        }
        let ghost mid = self@;
        if self.stopped && self.is_running() {
            self.state = RunState::Done(Ok(()));
            proof {
                assert(self@ =~= event_observe_stop(mid));
            }
        } else {
            proof {
                assert(self@ =~= event_observe_stop(mid));
            }
        }
        proof {
            if pre.queue.len() == 0 {
                assert(mid =~= pre);
            }
            assert(event_cycle_rel(pre, self@));
        }
    }

    /// Waits for the worker to end and yields its terminal result; the wait
    /// is modelled by running the remaining worker cycles, so the worker
    /// must have been stopped or already ended.
    pub fn join(self) -> (r: Result<(), E>)
        requires
            self@.stopped || !(self@.state is Running),
        ensures
            self@.state matches RunState::Done(res) ==> r == res,
            exists|n: nat, post: EventView<M, E, A>|
                event_cycles_rel(self@, post, n) && post.state == RunState::Done(r),
    {
        let ghost start = self@;
        let mut d = self;
        run(&mut d);
        let ghost after = d@;
        proof {
            if !(start.state is Running) {
                let n = choose|n: nat| event_cycles_rel(start, after, n);
                lemma_event_cycles_terminal(start, after, n);
            }
        }
        match d.state {
            RunState::Done(res) => res,
            RunState::Running => {
                proof {
                    assert(false);
                }
                Ok(())
            },
        }
    }
}

/// The worker's loop: runs cycles until the queue is drained or the worker
/// ends; a requested stop is observed no later than the first idle cycle.
pub fn run<M, E, A: Actor<M, E>>(d: &mut EventDispatcher<M, E, A>)
    ensures
        exists|n: nat| event_cycles_rel(old(d)@, final(d)@, n),
        final(d)@.stopped == old(d)@.stopped,
        !(final(d)@.state is Running) || (final(d)@.queue.len() == 0 && !final(d)@.stopped),
{
    let ghost start = d@;
    let ghost mut count: nat = 0nat;
    while d.is_running() && d.queue_len() > 0
        invariant
            start == old(d)@,
            event_cycles_rel(start, d@, count),
            d@.stopped == start.stopped,
        decreases d@.queue.len(),
    {
        let ghost prev = d@;
        d.step();
        proof {
            lemma_event_cycles_snoc(start, prev, d@, count);
            count = count + 1;
        }
    }
    if d.is_stopped() && d.is_running() {
        let ghost prev = d@;
        d.step();
        proof {
            lemma_event_cycles_snoc(start, prev, d@, count);
            count = count + 1;
        }
    }
    proof {
        assert(event_cycles_rel(start, d@, count));
    }
}

/// Cycles compose: one more cycle after `n` cycles makes `n + 1` cycles.
pub proof fn lemma_event_cycles_snoc<M, E, A>(
    pre: EventView<M, E, A>,
    mid: EventView<M, E, A>,
    post: EventView<M, E, A>,
    n: nat,
)
    requires
        event_cycles_rel(pre, mid, n),
        event_cycle_rel(mid, post),
    ensures
        event_cycles_rel(pre, post, n + 1),
    decreases n,
{
    if n == 0 {
        assert(event_cycle_rel(pre, post));
        assert(event_cycles_rel(post, post, 0));
    } else {
        let m2 = choose|m2: EventView<M, E, A>|
            event_cycle_rel(pre, m2) && event_cycles_rel(m2, mid, (n - 1) as nat);
        lemma_event_cycles_snoc(m2, mid, post, (n - 1) as nat);
    }
}

/// Once the worker has ended, further cycles change nothing.
pub proof fn lemma_event_cycles_terminal<M, E, A>(
    pre: EventView<M, E, A>,
    post: EventView<M, E, A>,
    n: nat,
)
    requires
        event_cycles_rel(pre, post, n),
        !(pre.state is Running),
    ensures
        post == pre,
    decreases n,
{
    if n > 0 {
        let mid = choose|mid: EventView<M, E, A>|
            event_cycle_rel(pre, mid) && event_cycles_rel(mid, post, (n - 1) as nat);
        lemma_event_cycles_terminal(mid, post, (n - 1) as nat);
    }
}

/// Law (broadcast FIFO): over a full dispatch to `n` actors, every actor
/// receives every message, in send order.
pub proof fn lemma_bcast_fifo<M>(n: int, msgs: Seq<M>, i: int)
    requires
        0 <= i < n,
    ensures
        msgs_for(bcast_full_trace(n, msgs), i) == msgs,
    decreases msgs.len(),
{
    if msgs.len() == 0 {
        assert(msgs_for(bcast_full_trace(n, msgs), i) =~= msgs);
    } else {
        lemma_bcast_fifo(n, msgs.drop_first(), i);
        lemma_msgs_for_add(bcast_trace(n, msgs[0]), bcast_full_trace(n, msgs.drop_first()), i);
        lemma_bcast_trace_for_actor(n, msgs[0], i);
        assert(msgs_for(bcast_full_trace(n, msgs), i) =~= msgs);
    }
}

/// Within one message's broadcast, actor `i` sees the message exactly once.
pub proof fn lemma_bcast_trace_for_actor<M>(n: int, m: M, i: int)
    requires
        0 <= i < n,
    ensures
        msgs_for(bcast_trace(n, m), i) == seq![m],
    decreases n,
{
    let tail: Seq<(int, M)> = seq![(n - 1, m)];
    lemma_msgs_for_add(bcast_trace(n - 1, m), tail, i);
    assert(tail.drop_first() =~= Seq::<(int, M)>::empty());
    assert(msgs_for(Seq::<(int, M)>::empty(), i) =~= Seq::<M>::empty());
    assert(msgs_for(tail, i) =~= if i == n - 1 { seq![m] } else { Seq::<M>::empty() });
    if i < n - 1 {
        lemma_bcast_trace_for_actor(n - 1, m, i);
        assert(msgs_for(bcast_trace(n, m), i) =~= seq![m]);
    } else {
        lemma_bcast_trace_out_of_range(n - 1, m, i);
        assert(msgs_for(bcast_trace(n, m), i) =~= seq![m]);
    }
}

/// An actor beyond the first `n` sees nothing of one message's broadcast.
pub proof fn lemma_bcast_trace_out_of_range<M>(n: int, m: M, i: int)
    requires
        i >= n,
    ensures
        msgs_for(bcast_trace(n, m), i) == Seq::<M>::empty(),
    decreases n,
{
    if n <= 0 {
    } else {
        let tail: Seq<(int, M)> = seq![(n - 1, m)];
        lemma_msgs_for_add(bcast_trace(n - 1, m), tail, i);
        assert(tail.drop_first() =~= Seq::<(int, M)>::empty());
        assert(msgs_for(Seq::<(int, M)>::empty(), i) =~= Seq::<M>::empty());
        assert(msgs_for(tail, i) =~= Seq::<M>::empty());
        lemma_bcast_trace_out_of_range(n - 1, m, i);
        assert(msgs_for(bcast_trace(n, m), i) =~= Seq::<M>::empty());
    }
}

/// Splitting off one message from a truncated queue splits its broadcast.
pub proof fn lemma_bcast_full_trace_take_step<M>(n: int, q: Seq<M>, j: int)
    requires
        0 <= j,
        j + 1 <= q.len(),
    ensures
        bcast_full_trace(n, q.take(j + 1)) == bcast_trace(n, q[0]) + bcast_full_trace(
            n,
            q.drop_first().take(j),
        ),
{
    let t = q.take(j + 1);
    assert(t[0] == q[0]);
    assert(t.drop_first() =~= q.drop_first().take(j));
}

/// Law (FIFO delivery at the bus): worker cycles that drain the queue
/// without the worker ending deliver every queued message to every actor,
/// appended to the log in order.
pub proof fn lemma_event_cycles_deliver_everything<M, E, A>(
    pre: EventView<M, E, A>,
    post: EventView<M, E, A>,
    n: nat,
)
    requires
        event_cycles_rel(pre, post, n),
        pre.state is Running,
        post.state is Running,
        post.queue.len() == 0,
    ensures
        post.log == pre.log + bcast_full_trace(pre.actors.len() as int, pre.queue),
        post.actors.len() == pre.actors.len(),
    decreases n,
{
    if n == 0 {
        assert(post == pre);
        assert(pre.queue =~= Seq::<M>::empty());
        assert(post.log =~= pre.log + bcast_full_trace(pre.actors.len() as int, pre.queue));
    } else {
        let mid = choose|mid: EventView<M, E, A>|
            #[trigger] event_cycle_rel(pre, mid) && event_cycles_rel(mid, post, (n - 1) as nat);
        if !(mid.state is Running) {
            lemma_event_cycles_terminal(mid, post, (n - 1) as nat);
            assert(false);
        }
        if pre.queue.len() == 0 {
            assert(mid == event_observe_stop(pre));
            assert(mid == pre);
            lemma_event_cycles_deliver_everything(mid, post, (n - 1) as nat);
            assert(pre.queue =~= Seq::<M>::empty());
            assert(post.log =~= pre.log + bcast_full_trace(pre.actors.len() as int, pre.queue));
        } else {
            let pre2 = EventView { queue: pre.queue.drop_first(), ..pre };
            let m = pre.queue[0];
            let mid2 = choose|mid2: EventView<M, E, A>|
                #[trigger] event_deliver_rel(pre2, m, mid2) && mid == event_observe_stop(mid2);
            assert(mid2.state is Running) by {
                if !(mid2.state is Running) {
                    assert(mid == mid2);
                }
            }
            assert(mid == mid2);
            assert(mid.log == pre.log + bcast_trace(pre.actors.len() as int, m));
            lemma_event_cycles_deliver_everything(mid, post, (n - 1) as nat);
            assert(bcast_full_trace(pre.actors.len() as int, pre.queue) == bcast_trace(
                pre.actors.len() as int,
                m,
            ) + bcast_full_trace(pre.actors.len() as int, pre.queue.drop_first()));
            assert(post.log =~= pre.log + bcast_full_trace(pre.actors.len() as int, pre.queue));
        }
    }
}

/// Law (fail-fast): if a run of worker cycles ends with an error, then some
/// queued message `j` failed at some actor `k`: the log grew by the
/// broadcasts of the messages before `j`, then the deliveries of message `j`
/// up to and including `k`, and nothing after that.
pub proof fn lemma_event_cycles_fail_fast<M, E, A>(
    pre: EventView<M, E, A>,
    post: EventView<M, E, A>,
    n: nat,
)
    requires
        event_cycles_rel(pre, post, n),
        pre.state is Running,
        post.state matches RunState::Done(Err(_)),
    ensures
        exists|j: int, k: int|
            #![trigger pre.queue[j], bcast_trace(k + 1, pre.queue[j])]
            {
                &&& 0 <= j < pre.queue.len()
                &&& 0 <= k < pre.actors.len()
                &&& post.log == pre.log + bcast_full_trace(
                    pre.actors.len() as int,
                    pre.queue.take(j),
                ) + bcast_trace(k + 1, pre.queue[j])
            },
    decreases n,
{
    assert(n > 0);
    let nn = pre.actors.len() as int;
    let mid = choose|mid: EventView<M, E, A>|
        #[trigger] event_cycle_rel(pre, mid) && event_cycles_rel(mid, post, (n - 1) as nat);
    if pre.queue.len() == 0 {
        assert(mid == event_observe_stop(pre));
        if !(mid.state is Running) {
            lemma_event_cycles_terminal(mid, post, (n - 1) as nat);
            assert(false);
        }
        assert(mid == pre);
        lemma_event_cycles_fail_fast(mid, post, (n - 1) as nat);
    } else {
        let pre2 = EventView { queue: pre.queue.drop_first(), ..pre };
        let m = pre.queue[0];
        let mid2 = choose|mid2: EventView<M, E, A>|
            #[trigger] event_deliver_rel(pre2, m, mid2) && mid == event_observe_stop(mid2);
        if mid2.state is Running {
            assert(mid2.log == pre.log + bcast_trace(nn, m));
            if !(mid.state is Running) {
                lemma_event_cycles_terminal(mid, post, (n - 1) as nat);
                assert(false);
            }
            assert(mid == mid2);
            lemma_event_cycles_fail_fast(mid, post, (n - 1) as nat);
            let (j2, k2) = choose|j2: int, k2: int|
                #![trigger mid.queue[j2], bcast_trace(k2 + 1, mid.queue[j2])]
                {
                    &&& 0 <= j2 < mid.queue.len()
                    &&& 0 <= k2 < mid.actors.len()
                    &&& post.log == mid.log + bcast_full_trace(
                        mid.actors.len() as int,
                        mid.queue.take(j2),
                    ) + bcast_trace(k2 + 1, mid.queue[j2])
                };
            let j = j2 + 1;
            assert(pre.queue[j] == mid.queue[j2]);
            lemma_bcast_full_trace_take_step(nn, pre.queue, j2);
            assert(pre.queue.drop_first().take(j2) =~= mid.queue.take(j2));
            assert(post.log =~= pre.log + bcast_full_trace(nn, pre.queue.take(j)) + bcast_trace(
                k2 + 1,
                pre.queue[j],
            ));
        } else {
            assert(mid == mid2);
            lemma_event_cycles_terminal(mid, post, (n - 1) as nat);
            assert(post == mid2);
            let k = choose|k: int|
                {
                    &&& 0 <= k < pre2.actors.len()
                    &&& mid2.log == pre2.log + #[trigger] bcast_trace(k + 1, m)
                    &&& mid2.state matches RunState::Done(Err(_))
                };
            assert(pre.queue.take(0) =~= Seq::<M>::empty());
            assert(bcast_full_trace(nn, pre.queue.take(0)) =~= Seq::<(int, M)>::empty());
            assert(post.log =~= pre.log + bcast_full_trace(nn, pre.queue.take(0)) + bcast_trace(
                k + 1,
                pre.queue[0],
            ));
            assert(0 <= 0 < pre.queue.len() && 0 <= k < pre.actors.len());
        }
    }
}

/// The messages a user can send to the test bus.
pub enum Message {
    Ask(String),
    Others,
}

impl Message {
    /// Wraps a question for the bus.
    pub fn ask(message: &str) -> (r: Message)
        ensures
            r matches Message::Ask(s) && s@ == message@,
    {
        Message::Ask(message.to_owned())
    }
}

/// The errors a test actor can raise.
pub enum ActorErr {
    Failure(String),
}

/// An actor that acknowledges questions and reports anything else.
pub struct TestActor {
}

impl Actor<Message, ActorErr> for TestActor {
    fn on_receive(&mut self, m: &Message) -> Result<(), ActorErr> {
        match m {
            Message::Ask(_) => Ok(()),
            Message::Others => Err(ActorErr::Failure(String::from_str("unknown message"))),
        }
    }
}

} // verus!
