use vstd::prelude::*;
use crate::types::{PeerId, string_views};

verus! {

/// A message that the gossip engine received.
pub struct GossipsubMessage {
    pub source: PeerId,
    pub data: Vec<u8>,
    pub topics: Vec<String>,
}

/// What the gossip engine reports.
pub enum GossipsubEvent {
    Message(GossipsubMessage),
    Subscribed { peer_id: PeerId, topic: String },
    Unsubscribed { peer_id: PeerId, topic: String },
}

/// What the request/response engine reports.
pub enum RPCMessage<R> {
    PeerDialed(PeerId),
    PeerDisconnected(PeerId),
    RPC(PeerId, R),
}

/// What the liveness engine reports after probing a peer.
pub struct PingEvent {
    pub peer: PeerId,
    pub succeeded: bool,
}

/// What a peer told about itself when identified.
pub struct IdentifyInfo {
    pub public_key: Vec<u8>,
    pub protocol_version: String,
    pub agent_version: String,
    pub listen_addrs: Vec<String>,
    pub protocols: Vec<String>,
}

/// What the identify engine reports.
pub enum IdentifyEvent {
    Identified { peer_id: PeerId, info: IdentifyInfo },
    Error { peer_id: PeerId },
    SendBack { peer_id: PeerId },
}

/// What the discovery engine reports: a node that it found.
pub struct DiscoveryEvent {
    pub node: PeerId,
}

/// An event of any of the five engines.
pub enum EngineEvent<R> {
    Gossip(GossipsubEvent),
    Rpc(RPCMessage<R>),
    Ping(PingEvent),
    Identify(IdentifyEvent),
    Discovery(DiscoveryEvent),
}

/// What the translation of an engine event depends on.
pub enum NativeModel<R> {
    Message(Seq<char>, Seq<Seq<char>>, Seq<u8>),
    Dialed(Seq<char>),
    Disconnected(Seq<char>),
    Rpc(Seq<char>, R),
    Other,
}

impl<R> View for EngineEvent<R> {
    type V = NativeModel<R>;

    open spec fn view(&self) -> NativeModel<R> {
        match self {
            EngineEvent::Gossip(GossipsubEvent::Message(m)) => NativeModel::Message(
                m.source@,
                string_views(m.topics@),
                m.data@,
            ),
            EngineEvent::Rpc(RPCMessage::PeerDialed(p)) => NativeModel::Dialed(p@),
            EngineEvent::Rpc(RPCMessage::PeerDisconnected(p)) => NativeModel::Disconnected(p@),
            EngineEvent::Rpc(RPCMessage::RPC(p, r)) => NativeModel::Rpc(p@, *r),
            _ => NativeModel::Other,
        }
    }
}

/// The listen addresses kept of an identified peer: the first
/// `MAX_IDENTIFY_ADDRESSES` of them, in their order.
pub open spec fn bounded_addrs(s: Seq<String>) -> Seq<String> {
    if s.len() > crate::MAX_IDENTIFY_ADDRESSES {
        s.take(crate::MAX_IDENTIFY_ADDRESSES as int)
    } else {
        s
    }
}

/// Cuts the listen addresses of an identified peer down to
/// `MAX_IDENTIFY_ADDRESSES`, keeping the first ones in order.
pub fn bound_identify_info(info: IdentifyInfo) -> (r: IdentifyInfo)
    ensures
        r.listen_addrs@ == bounded_addrs(info.listen_addrs@),
        r.listen_addrs@.len() <= crate::MAX_IDENTIFY_ADDRESSES,
        r.public_key == info.public_key,
        r.protocol_version == info.protocol_version,
        r.agent_version == info.agent_version,
        r.protocols == info.protocols,
{
    let mut info = info;
    if info.listen_addrs.len() > crate::MAX_IDENTIFY_ADDRESSES {
        info.listen_addrs.truncate(crate::MAX_IDENTIFY_ADDRESSES);
    }
    info
}

} // verus!

verus! {

/// What each engine produced when polled once; `None` for an engine that had
/// nothing.
pub struct EngineRound<R> {
    pub gossip: Option<GossipsubEvent>,
    pub rpc: Option<RPCMessage<R>>,
    pub ping: Option<PingEvent>,
    pub identify: Option<IdentifyEvent>,
    pub discovery: Option<DiscoveryEvent>,
}

/// A sequence of engine events with one more at its end, if there is one.
pub open spec fn push_some<R>(s: Seq<NativeModel<R>>, e: Option<NativeModel<R>>) -> Seq<NativeModel<R>> {
    match e {
        Some(x) => s.push(x),
        None => s,
    }
}

impl<R> EngineRound<R> {
    pub open spec fn gossip_model(&self) -> Option<NativeModel<R>> {
        match self.gossip {
            Some(g) => Some(EngineEvent::<R>::Gossip(g)@),
            None => None,
        }
    }

    pub open spec fn rpc_model(&self) -> Option<NativeModel<R>> {
        match self.rpc {
            Some(m) => Some(EngineEvent::<R>::Rpc(m)@),
            None => None,
        }
    }

    pub open spec fn ping_model(&self) -> Option<NativeModel<R>> {
        match self.ping {
            Some(p) => Some(EngineEvent::<R>::Ping(p)@),
            None => None,
        }
    }

    pub open spec fn identify_model(&self) -> Option<NativeModel<R>> {
        match self.identify {
            Some(i) => Some(EngineEvent::<R>::Identify(i)@),
            None => None,
        }
    }

    pub open spec fn discovery_model(&self) -> Option<NativeModel<R>> {
        match self.discovery {
            Some(x) => Some(EngineEvent::<R>::Discovery(x)@),
            None => None,
        }
    }

    /// A sequence of engine events followed by those of this round, in the
    /// fixed order of the engines: gossip, request/response, liveness,
    /// identify, discovery.
    pub open spec fn appended_to(&self, s: Seq<NativeModel<R>>) -> Seq<NativeModel<R>> {
        push_some(
            push_some(
                push_some(push_some(push_some(s, self.gossip_model()), self.rpc_model()), self.ping_model()),
                self.identify_model(),
            ),
            self.discovery_model(),
        )
    }
}

} // verus!
