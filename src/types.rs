use vstd::prelude::*;

verus! {

/// A remote peer, identified by the text form of its public-key-derived identity.
pub struct PeerId {
    pub id: String,
}

impl View for PeerId {
    type V = Seq<char>;

    open spec fn view(&self) -> Seq<char> {
        self.id@
    }
}

impl PeerId {
    pub fn new(id: String) -> (r: PeerId)
        ensures
            r@ == id@,
    {
        PeerId { id }
    }

    /// An equal copy of this identity.
    pub fn copy(&self) -> (r: PeerId)
        ensures
            r@ == self@,
    {
        PeerId { id: self.id.clone() }
    }

    /// Whether two identities are the same peer.
    pub fn same(&self, other: &PeerId) -> (r: bool)
        ensures
            r == (self@ == other@),
    {
        self.id == other.id
    }
}

/// The identities of a list of peers.
pub open spec fn peer_views(s: Seq<PeerId>) -> Seq<Seq<char>> {
    s.map_values(|p: PeerId| p@)
}

/// The text of a list of strings.
pub open spec fn string_views(s: Seq<String>) -> Seq<Seq<char>> {
    s.map_values(|t: String| t@)
}

/// An event that the behaviour hands to the network driver.
pub enum BehaviourEvent<R> {
    /// A request, response or error of the request/response protocol from a peer.
    RPC(PeerId, R),
    /// A connection to the peer was opened.
    PeerDialed(PeerId),
    /// The connection to the peer was closed.
    PeerDisconnected(PeerId),
    /// A message received on one or more pub-sub topics.
    PubsubMessage { source: PeerId, topics: Vec<String>, message: Vec<u8> },
}

/// The mathematical value of a [`BehaviourEvent`].
pub enum EventModel<R> {
    Rpc(Seq<char>, R),
    Dialed(Seq<char>),
    Disconnected(Seq<char>),
    Pubsub(Seq<char>, Seq<Seq<char>>, Seq<u8>),
}

impl<R> View for BehaviourEvent<R> {
    type V = EventModel<R>;

    open spec fn view(&self) -> EventModel<R> {
        match self {
            BehaviourEvent::RPC(p, r) => EventModel::Rpc(p@, *r),
            BehaviourEvent::PeerDialed(p) => EventModel::Dialed(p@),
            BehaviourEvent::PeerDisconnected(p) => EventModel::Disconnected(p@),
            BehaviourEvent::PubsubMessage { source, topics, message } => EventModel::Pubsub(
                source@,
                string_views(topics@),
                message@,
            ),
        }
    }
}

/// The content of a pub-sub message, classified by the topic it arrived on.
#[derive(Debug, Clone, PartialEq)]
pub enum PubsubMessage {
    /// Notification of a new block.
    Block(Vec<u8>),
    /// Notification of a new attestation.
    Attestation(Vec<u8>),
    /// A message from a topic with no known meaning.
    Unknown(Vec<u8>),
}

} // verus!
