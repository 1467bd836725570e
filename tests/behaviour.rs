use p2p_behaviour::behaviour::{subscription_changed, Behaviour, Command, SubscriptionError};
use p2p_behaviour::engine::{
    bound_identify_info, DiscoveryEvent, EngineEvent, EngineRound, GossipsubEvent,
    GossipsubMessage, IdentifyEvent, IdentifyInfo, PingEvent, RPCMessage,
};
use p2p_behaviour::types::{BehaviourEvent, PeerId};
use p2p_behaviour::MAX_IDENTIFY_ADDRESSES;

fn peer(s: &str) -> PeerId {
    PeerId::new(s.to_string())
}

fn info_with(n: usize) -> IdentifyInfo {
    IdentifyInfo {
        public_key: vec![1, 2, 3],
        protocol_version: "mothra/libp2p".to_string(),
        agent_version: "0.0.1".to_string(),
        listen_addrs: (0..n).map(|i| format!("/ip4/10.0.0.{}/tcp/9000", i)).collect(),
        protocols: vec!["/meshsub/1.0.0".to_string()],
    }
}

fn empty_round() -> EngineRound<String> {
    EngineRound { gossip: None, rpc: None, ping: None, identify: None, discovery: None }
}

fn dialed(b: &mut Behaviour<String>, p: &str) {
    b.inject_event(EngineEvent::Rpc(RPCMessage::PeerDialed(peer(p))));
}

fn disconnected(b: &mut Behaviour<String>, p: &str) {
    b.inject_event(EngineEvent::Rpc(RPCMessage::PeerDisconnected(peer(p))));
}

fn describe(e: &BehaviourEvent<String>) -> String {
    match e {
        BehaviourEvent::RPC(p, r) => format!("rpc {} {}", p.id, r),
        BehaviourEvent::PeerDialed(p) => format!("dialed {}", p.id),
        BehaviourEvent::PeerDisconnected(p) => format!("disconnected {}", p.id),
        BehaviourEvent::PubsubMessage { source, topics, message } => {
            format!("pubsub {} {:?} {:?}", source.id, topics, message)
        }
    }
}

fn drain(b: &mut Behaviour<String>) -> Vec<String> {
    let mut out = Vec::new();
    while let Some(e) = b.poll() {
        out.push(describe(&e));
    }
    out
}

#[test]
fn poll_with_nothing_produced_gives_no_event() {
    let mut b: Behaviour<String> = Behaviour::new();
    assert!(b.poll().is_none());
    assert!(b.poll_round(empty_round()).is_none());
    assert!(!b.has_pending());
}

#[test]
fn subscribe_twice_returns_true_then_false() {
    let mut b: Behaviour<String> = Behaviour::new();
    b.subscribe("topicX".to_string());
    b.subscribe("topicX".to_string());
    let mut asked = Vec::new();
    while let Some(c) = b.next_command() {
        match c {
            Command::Subscribe(t) => asked.push(t),
            _ => panic!("expected subscribe commands only"),
        }
    }
    // each call asks the engine, which owns the subscriptions
    assert_eq!(asked, vec!["topicX".to_string(), "topicX".to_string()]);
    // the engine answers a new subscription, then one it already has
    assert!(subscription_changed(&Ok(true)));
    assert!(!subscription_changed(&Ok(false)));
    assert!(b.poll().is_none());
}

#[test]
fn refused_subscription_changes_nothing() {
    assert!(!subscription_changed(&Err(SubscriptionError::NotAllowed)));
    assert!(!subscription_changed(&Err(SubscriptionError::PublishError)));
}

#[test]
fn publish_fans_out_once_per_topic() {
    let mut b: Behaviour<String> = Behaviour::new();
    let payload = vec![7u8, 8, 9];
    b.publish(vec!["topicA".to_string(), "topicB".to_string()], payload.clone());
    let mut seen = Vec::new();
    while let Some(c) = b.next_command() {
        match c {
            Command::Publish { topic, message } => seen.push((topic, message)),
            _ => panic!("expected publish commands only"),
        }
    }
    assert_eq!(
        seen,
        vec![("topicA".to_string(), payload.clone()), ("topicB".to_string(), payload.clone())]
    );
    assert!(b.poll().is_none());
}

#[test]
fn publish_repeats_duplicate_topics() {
    let mut b: Behaviour<String> = Behaviour::new();
    b.publish(vec!["t".to_string(), "t".to_string()], vec![1]);
    let mut n = 0;
    while let Some(Command::Publish { topic, message }) = b.next_command() {
        assert_eq!(topic, "t");
        assert_eq!(message, vec![1]);
        n += 1;
    }
    assert_eq!(n, 2);
}

#[test]
fn send_rpc_queues_a_command_and_no_event() {
    let mut b: Behaviour<String> = Behaviour::new();
    b.send_rpc(peer("QmA"), "status".to_string());
    match b.next_command() {
        Some(Command::SendRpc(p, r)) => {
            assert_eq!(p.id, "QmA");
            assert_eq!(r, "status");
        }
        _ => panic!("expected a send command"),
    }
    assert!(b.poll().is_none());
}

#[test]
fn identify_keeps_first_twenty_of_twenty_five_addresses() {
    let info = info_with(25);
    let expected: Vec<String> = info.listen_addrs[..20].to_vec();
    let bounded = bound_identify_info(info);
    assert_eq!(MAX_IDENTIFY_ADDRESSES, 20);
    assert_eq!(bounded.listen_addrs.len(), 20);
    assert_eq!(bounded.listen_addrs, expected);
    assert_eq!(bounded.agent_version, "0.0.1");
}

#[test]
fn identify_keeps_short_address_lists_whole() {
    let info = info_with(3);
    let expected = info.listen_addrs.clone();
    let bounded = bound_identify_info(info);
    assert_eq!(bounded.listen_addrs, expected);
    let exact = bound_identify_info(info_with(20));
    assert_eq!(exact.listen_addrs.len(), 20);
}

#[test]
fn identified_peer_is_kept_bounded_and_produces_no_event() {
    let mut b: Behaviour<String> = Behaviour::new();
    let info = info_with(25);
    let expected: Vec<String> = info.listen_addrs[..20].to_vec();
    b.inject_event(EngineEvent::Identify(IdentifyEvent::Identified { peer_id: peer("QmI"), info }));
    b.inject_event(EngineEvent::Identify(IdentifyEvent::Error { peer_id: peer("QmI") }));
    b.inject_event(EngineEvent::Identify(IdentifyEvent::SendBack { peer_id: peer("QmI") }));
    assert!(b.poll().is_none());
    let r = b.next_identified().expect("identified peer kept");
    assert_eq!(r.peer_id.id, "QmI");
    assert_eq!(r.info.listen_addrs, expected);
    assert!(b.next_identified().is_none());
}

#[test]
fn events_come_out_in_arrival_order_across_engines() {
    let mut b: Behaviour<String> = Behaviour::new();
    let round = EngineRound {
        gossip: Some(GossipsubEvent::Message(GossipsubMessage {
            source: peer("QmG"),
            data: vec![1, 2],
            topics: vec!["blocks".to_string()],
        })),
        rpc: Some(RPCMessage::PeerDialed(peer("QmR"))),
        ping: Some(PingEvent { peer: peer("QmR"), succeeded: true }),
        identify: None,
        discovery: Some(DiscoveryEvent { node: peer("QmD") }),
    };
    let first = b.poll_round(round).expect("an event");
    assert_eq!(describe(&first), "pubsub QmG [\"blocks\"] [1, 2]");
    b.inject_event(EngineEvent::Rpc(RPCMessage::RPC(peer("QmR"), "hello".to_string())));
    assert_eq!(drain(&mut b), vec!["dialed QmR".to_string(), "rpc QmR hello".to_string()]);
    assert!(b.poll_round(empty_round()).is_none());
}

#[test]
fn queued_event_is_handed_out_before_a_new_round() {
    let mut b: Behaviour<String> = Behaviour::new();
    dialed(&mut b, "QmA");
    let round = EngineRound {
        gossip: None,
        rpc: Some(RPCMessage::RPC(peer("QmA"), "req".to_string())),
        ping: None,
        identify: None,
        discovery: None,
    };
    let e = b.poll_round(round).expect("an event");
    assert_eq!(describe(&e), "dialed QmA");
    assert_eq!(drain(&mut b), vec!["rpc QmA req".to_string()]);
}

#[test]
fn lifecycle_events_alternate_per_peer() {
    let mut b: Behaviour<String> = Behaviour::new();
    dialed(&mut b, "QmA");
    dialed(&mut b, "QmA");
    dialed(&mut b, "QmB");
    disconnected(&mut b, "QmA");
    disconnected(&mut b, "QmA");
    disconnected(&mut b, "QmC");
    dialed(&mut b, "QmA");
    assert_eq!(
        drain(&mut b),
        vec![
            "dialed QmA".to_string(),
            "dialed QmB".to_string(),
            "disconnected QmA".to_string(),
            "dialed QmA".to_string(),
        ]
    );
}

#[test]
fn connected_peers_follow_translated_transitions() {
    let mut b: Behaviour<String> = Behaviour::new();
    assert_eq!(b.num_connected_peers(), 0);
    dialed(&mut b, "QmP");
    dialed(&mut b, "QmQ");
    let ids: Vec<String> = b.connected_peers().into_iter().map(|p| p.id).collect();
    assert!(ids.contains(&"QmP".to_string()));
    assert_eq!(b.num_connected_peers(), 2);
    disconnected(&mut b, "QmP");
    // the disconnect is not handed out yet, and the peer is already gone
    assert!(b.has_pending());
    let ids: Vec<String> = b.connected_peers().into_iter().map(|p| p.id).collect();
    assert_eq!(ids, vec!["QmQ".to_string()]);
    assert_eq!(b.num_connected_peers(), 1);
}

#[test]
fn uninteresting_events_are_dropped() {
    let mut b: Behaviour<String> = Behaviour::new();
    b.inject_event(EngineEvent::Gossip(GossipsubEvent::Subscribed {
        peer_id: peer("QmS"),
        topic: "t".to_string(),
    }));
    b.inject_event(EngineEvent::Gossip(GossipsubEvent::Unsubscribed {
        peer_id: peer("QmS"),
        topic: "t".to_string(),
    }));
    b.inject_event(EngineEvent::Ping(PingEvent { peer: peer("QmS"), succeeded: false }));
    b.inject_event(EngineEvent::Discovery(DiscoveryEvent { node: peer("QmS") }));
    assert!(b.poll().is_none());
    assert_eq!(b.num_connected_peers(), 0);
}

#[test]
fn peer_identity_compares_by_value() {
    let a = peer("QmA");
    assert!(a.same(&a.copy()));
    assert!(!a.same(&peer("QmB")));
}
