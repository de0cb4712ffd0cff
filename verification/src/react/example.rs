//! Example actors for a small cluster-membership protocol.
use vstd::prelude::*;

use super::actor::{Actor, ActorContext};
use super::{Error, MsgTrait};

verus! {

/// A message wrapper telling one-way payloads apart from questions.
pub enum Payload<M> {
    Message(M),
    Ask(M),
}

/// The messages the example nodes exchange.
pub enum NodeProtocol {
    UpdateRequest,
    UpdateResponse,
}

impl MsgTrait for NodeProtocol {

}

/// The errors the example nodes can raise.
pub enum NodeErr {
    Unexpected,
}

impl Error for NodeErr {

}

/// A node that tracks membership updates.
pub struct NodeManager {
    pub context: ActorContext,
    pub updates_seen: u64,
}

impl NodeManager {
    /// Answers an update request with an update response.
    pub fn on_ask(&self, msg: &NodeProtocol) -> (r: Result<NodeProtocol, NodeErr>)
        requires
            msg is UpdateRequest,
        ensures
            r == Result::<NodeProtocol, NodeErr>::Ok(NodeProtocol::UpdateResponse),
    {
        let _ = msg;
        Ok(NodeProtocol::UpdateResponse)
    }
}

impl Actor<NodeProtocol, NodeErr> for NodeManager {
    fn context(&self) -> (r: &ActorContext)
        ensures
            r == &self.context,
    {
        &self.context
    }

    fn accept(&self, m: &NodeProtocol) -> (r: bool)
        ensures
            r,
    {
        let _ = m;
        true
    }

    fn on_receive(&mut self, m: &NodeProtocol) -> (r: Result<(), NodeErr>)
        ensures
            r is Ok,
            final(self).context == old(self).context,
            *m is UpdateRequest && old(self).updates_seen < u64::MAX ==> final(self).updates_seen
                == old(self).updates_seen + 1,
            !(*m is UpdateRequest && old(self).updates_seen < u64::MAX) ==> final(self).updates_seen
                == old(self).updates_seen,
    {
        match m {
            NodeProtocol::UpdateRequest => {
                if self.updates_seen < u64::MAX {
                    self.updates_seen = self.updates_seen + 1;
                }
            },
            NodeProtocol::UpdateResponse => {},
        }
        Ok(())
    }
}

/// The node coordinating updates across members.
pub struct NodeLeader {
    pub context: ActorContext,
    pub updates_sent: u64,
}

impl NodeLeader {
    /// Answers an update request with an update response.
    pub fn on_ask(&self, msg: &NodeProtocol) -> (r: Result<NodeProtocol, NodeErr>)
        requires
            msg is UpdateRequest,
        ensures
            r == Result::<NodeProtocol, NodeErr>::Ok(NodeProtocol::UpdateResponse),
    {
        let _ = msg;
        Ok(NodeProtocol::UpdateResponse)
    }
}

impl Actor<NodeProtocol, NodeErr> for NodeLeader {
    fn context(&self) -> (r: &ActorContext)
        ensures
            r == &self.context,
    {
        &self.context
    }

    fn accept(&self, m: &NodeProtocol) -> (r: bool)
        ensures
            r,
    {
        let _ = m;
        true
    }

    fn on_receive(&mut self, m: &NodeProtocol) -> (r: Result<(), NodeErr>)
        ensures
            r is Ok,
            final(self).context == old(self).context,
            *m is UpdateRequest && old(self).updates_sent < u64::MAX ==> final(self).updates_sent
                == old(self).updates_sent + 1,
            !(*m is UpdateRequest && old(self).updates_sent < u64::MAX) ==> final(self).updates_sent
                == old(self).updates_sent,
    {
        match m {
            NodeProtocol::UpdateRequest => {
                if self.updates_sent < u64::MAX {
                    self.updates_sent = self.updates_sent + 1;
                }
            },
            NodeProtocol::UpdateResponse => {},
        }
        Ok(())
    }
}

} // verus!
