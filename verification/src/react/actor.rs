//! Actor identities and the actor capability itself.
use vstd::prelude::*;
use vstd::string::StringExecFns;

use crate::str::{i32_to_string, spec_idec};

verus! {

/// A logical actor endpoint, used for display and logging only: this engine
/// implements no transport, so the address never routes anything.
pub struct ActorUri {
    pub host_name: String,
    pub port: i32,
    pub path: String,
}

impl ActorUri {
    /// The text form of the address.
    pub open spec fn text(&self) -> Seq<char> {
        "react://"@ + self.host_name@ + ":"@ + spec_idec(self.port as int) + "/"@ + self.path@
    }

    /// Renders the address as `react://host:port/path`.
    pub fn display(&self) -> (r: String)
        ensures
            r@ == self.text(),
    {
        let mut r = String::from_str("react://");
        r.append(self.host_name.as_str());
        r.append(":");
        r.append(i32_to_string(self.port).as_str());
        r.append("/");
        r.append(self.path.as_str());
        proof {
            assert(r@ =~= self.text());
        }
        r
    }
}

/// Per-actor bookkeeping handed to an actor implementation.
pub struct ActorContext {
    pub uri: ActorUri,
}

/// A registered callback able to receive messages, with an optional veto on
/// which messages it accepts.
///
/// `on_receive` carries no contract: what an actor does with a message is the
/// actor author's business. An `Err` from it halts the whole dispatch loop.
pub trait Actor<M, E>: Sized {
    /// The actor's execution context.
    fn context(&self) -> &ActorContext;

    /// Whether the actor itself wants the message; the dispatcher's routing
    /// uses the registration's predicate instead.
    fn accept(&self, m: &M) -> bool;

    /// Handles one delivered message; an error stops the dispatch loop.
    fn on_receive(&mut self, m: &M) -> Result<(), E>;
}

} // verus!
