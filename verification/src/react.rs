//! An event bus: a user can send any message to it, and every subscribed
//! actor whose predicate accepts the message receives it in order.

pub mod actor;
pub mod dispatcher;
pub mod example;
pub mod route;

use vstd::prelude::*;

use self::dispatcher::AsyncDispatcher;
use self::actor::Actor;

verus! {

/// Marker for types that can travel through the bus as messages.
pub trait MsgTrait {}

impl MsgTrait for String {

}

/// Marker for error types an actor can raise.
pub trait Error {}

/// A per-registration filter deciding whether a message should be delivered
/// to the paired actor.
pub trait Predicate<M> {
    /// Whether the predicate holds of the message.
    spec fn holds(&self, m: &M) -> bool;

    /// Evaluates the predicate.
    fn test(&self, m: &M) -> (r: bool)
        ensures
            r == self.holds(m),
    ;
}

/// Owner of one dispatcher; the entry point of the bus.
pub struct ActorSystem<M: MsgTrait, E: Error, A: Actor<M, E>, P: Predicate<M>> {
    pub dispatcher: AsyncDispatcher<M, E, A, P>,
}

impl<M: MsgTrait, E: Error, A: Actor<M, E>, P: Predicate<M>> ActorSystem<M, E, A, P> {
    /// Builds a system with a fresh, empty dispatcher. The name is kept for
    /// display purposes only and plays no role in dispatch.
    pub fn new(name: &str) -> (r: ActorSystem<M, E, A, P>)
        ensures
            r.dispatcher@ == AsyncDispatcher::<M, E, A, P>::empty_view(),
    {
        let _ = name;
        ActorSystem { dispatcher: AsyncDispatcher::new() }
    }

    /// The system's dispatcher.
    pub fn dispatcher(&self) -> (r: &AsyncDispatcher<M, E, A, P>)
        ensures
            r == &self.dispatcher,
    {
        &self.dispatcher
    }
}

} // verus!
