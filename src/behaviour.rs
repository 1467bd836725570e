use vstd::prelude::*;
use crate::engine::{
    bound_identify_info, bounded_addrs, EngineEvent, EngineRound, GossipsubEvent, IdentifyEvent, IdentifyInfo,
    NativeModel, RPCMessage,
};
use crate::model::{
    alternating, lemma_lifecycle_alternates, lemma_lifecycle_prefix, lemma_run_push, lifecycle, run, step,
};
use crate::types::{peer_views, string_views, BehaviourEvent, EventModel, PeerId};

verus! {

/// A request that the behaviour makes of one of its engines.
pub enum Command<R> {
    /// Join a pub-sub topic.
    Subscribe(String),
    /// Broadcast a message on a pub-sub topic.
    Publish { topic: String, message: Vec<u8> },
    /// Send a request, response or error to a peer.
    SendRpc(PeerId, R),
}

/// The mathematical value of a [`Command`].
pub enum CommandModel<R> {
    Subscribe(Seq<char>),
    Publish(Seq<char>, Seq<u8>),
    SendRpc(Seq<char>, R),
}

impl<R> View for Command<R> {
    type V = CommandModel<R>;

    open spec fn view(&self) -> CommandModel<R> {
        match self {
            Command::Subscribe(t) => CommandModel::Subscribe(t@),
            Command::Publish { topic, message } => CommandModel::Publish(topic@, message@),
            Command::SendRpc(p, r) => CommandModel::SendRpc(p@, *r),
        }
    }
}

/// A peer and what it told about itself, its listen addresses bounded.
pub struct Identified {
    pub peer_id: PeerId,
    pub info: IdentifyInfo,
}

/// The combined behaviour: it translates the events of its engines into one
/// ordered stream of events for the network driver, keeps the set of
/// connected peers, and turns the driver's requests into commands for the
/// engines.
pub struct Behaviour<R> {
    /// Translated events not yet handed out, oldest first.
    events: Vec<BehaviourEvent<R>>,
    /// The connected peers, each once.
    connected: Vec<PeerId>,
    /// Commands for the engines not yet taken, oldest first.
    commands: Vec<Command<R>>,
    /// Identified peers not yet taken for diagnostics, oldest first.
    identified: Vec<Identified>,
    /// Every engine event handed in so far, in order.
    injected: Ghost<Seq<NativeModel<R>>>,
    /// Every event handed out so far, in order.
    delivered: Ghost<Seq<EventModel<R>>>,
}

/// The values of a list of events.
pub open spec fn event_views<R>(s: Seq<BehaviourEvent<R>>) -> Seq<EventModel<R>> {
    s.map_values(|e: BehaviourEvent<R>| e@)
}

/// The values of a list of commands.
pub open spec fn command_views<R>(s: Seq<Command<R>>) -> Seq<CommandModel<R>> {
    s.map_values(|c: Command<R>| c@)
}

/// One publish command per topic, in the order of the topics, each with the message.
pub open spec fn publish_commands<R>(topics: Seq<Seq<char>>, message: Seq<u8>) -> Seq<CommandModel<R>> {
    topics.map_values(|t: Seq<char>| CommandModel::Publish(t, message))
}

proof fn lemma_remove_from_unique<A>(s: Seq<A>, i: int)
    requires
        s.no_duplicates(),
        0 <= i < s.len(),
    ensures
        s.remove(i).no_duplicates(),
        s.remove(i).to_set() == s.to_set().remove(s[i]),
{
    let r = s.remove(i);
    s.remove_ensures(i);
    assert forall|x: A| r.to_set().contains(x) <==> s.to_set().remove(s[i]).contains(x) by {
        if r.contains(x) {
            let j = choose|j: int| 0 <= j < r.len() && r[j] == x;
            if j < i {
                assert(s[j] == x);
            } else {
                assert(s[j + 1] == x);
            }
        }
        if s.contains(x) && x != s[i] {
            let j = choose|j: int| 0 <= j < s.len() && s[j] == x;
            if j < i {
                assert(r[j] == x);
            } else {
                assert(r[j - 1] == x);
            }
        }
    }
    assert(r.to_set() =~= s.to_set().remove(s[i]));
}

proof fn lemma_push_unique<A>(s: Seq<A>, x: A)
    requires
        s.no_duplicates(),
        !s.contains(x),
    ensures
        s.push(x).no_duplicates(),
        s.push(x).to_set() == s.to_set().insert(x),
{
    s.lemma_push_to_set_commute(x);
    assert forall|i: int, j: int| 0 <= i < s.len() + 1 && 0 <= j < s.len() + 1 && i != j implies s.push(x)[i] != s.push(x)[j] by {
        if i == s.len() {
            assert(s[j] == s.push(x)[j]);
        } else if j == s.len() {
            assert(s[i] == s.push(x)[i]);
        }
    }
}

impl<R> Behaviour<R> {
    /// The events handed in so far.
    pub closed spec fn injected(&self) -> Seq<NativeModel<R>> {
        self.injected@
    }

    /// The events handed out so far.
    pub closed spec fn delivered(&self) -> Seq<EventModel<R>> {
        self.delivered@
    }

    /// The events waiting to be handed out, oldest first.
    pub closed spec fn queue(&self) -> Seq<EventModel<R>> {
        event_views(self.events@)
    }

    /// The connected peers.
    pub closed spec fn connected_set(&self) -> Set<Seq<char>> {
        peer_views(self.connected@).to_set()
    }

    /// The commands waiting to be taken, oldest first.
    pub closed spec fn pending_commands(&self) -> Seq<CommandModel<R>> {
        command_views(self.commands@)
    }

    /// The identified peers waiting to be taken, oldest first.
    pub closed spec fn pending_identified(&self) -> Seq<Identified> {
        self.identified@
    }

    /// The events handed out and those waiting are, in order, the translation
    /// of every engine event handed in, and the connected peers are those that
    /// translation leaves connected.
    pub closed spec fn wf(&self) -> bool {
        &&& peer_views(self.connected@).no_duplicates()
        &&& run(self.injected@).0 == self.connected_set()
        &&& run(self.injected@).1 == self.delivered@ + self.queue()
    }

    /// A behaviour with no peer connected and nothing waiting.
    pub fn new() -> (r: Behaviour<R>)
        ensures
            r.wf(),
            r.injected() == Seq::<NativeModel<R>>::empty(),
            r.delivered() == Seq::<EventModel<R>>::empty(),
            r.queue() == Seq::<EventModel<R>>::empty(),
            r.connected_set() == Set::<Seq<char>>::empty(),
            r.pending_commands() == Seq::<CommandModel<R>>::empty(),
            r.pending_identified() == Seq::<Identified>::empty(),
    {
        let r = Behaviour {
            events: Vec::new(),
            connected: Vec::new(),
            commands: Vec::new(),
            identified: Vec::new(),
            injected: Ghost(Seq::empty()),
            delivered: Ghost(Seq::empty()),
        };
        assert(peer_views(r.connected@) =~= Seq::empty());
        assert(event_views(r.events@) =~= Seq::empty());
        assert(command_views(r.commands@) =~= Seq::empty());
        assert(peer_views(r.connected@).to_set() =~= Set::empty());
        r
    }

    /// Joins a pub-sub topic: asks the gossip engine, which keeps the
    /// subscriptions, to subscribe. Whether that changed anything is the
    /// engine's answer, read with [`subscription_changed`].
    pub fn subscribe(&mut self, topic: String)
        requires
            old(self).wf(),
        ensures
            final(self).wf(),
            final(self).pending_commands() == old(self).pending_commands().push(
                CommandModel::Subscribe(topic@),
            ),
            final(self).injected() == old(self).injected(),
            final(self).delivered() == old(self).delivered(),
            final(self).queue() == old(self).queue(),
            final(self).connected_set() == old(self).connected_set(),
            final(self).pending_identified() == old(self).pending_identified(),
    {
        let ghost c0 = self.commands@;
        self.commands.push(Command::Subscribe(topic));
        proof {
            assert(command_views(self.commands@) =~= command_views(c0).push(CommandModel::Subscribe(topic@)));
        }
    }

    /// Publishes a message: asks the gossip engine to broadcast a copy of it on
    /// each of the topics, in their order, repeats included.
    pub fn publish(&mut self, topics: Vec<String>, message: Vec<u8>)
        requires
            old(self).wf(),
        ensures
            final(self).wf(),
            final(self).pending_commands() == old(self).pending_commands() + publish_commands(
                string_views(topics@),
                message@,
            ),
            final(self).injected() == old(self).injected(),
            final(self).delivered() == old(self).delivered(),
            final(self).queue() == old(self).queue(),
            final(self).connected_set() == old(self).connected_set(),
            final(self).pending_identified() == old(self).pending_identified(),
    {
        let ghost c0 = command_views(self.commands@);
        let mut i: usize = 0;
        while i < topics.len()
            invariant
                i <= topics@.len(),
                self.wf(),
                command_views(self.commands@) == c0 + publish_commands::<R>(
                    string_views(topics@.take(i as int)),
                    message@,
                ),
                self.injected() == old(self).injected(),
                self.delivered() == old(self).delivered(),
                self.queue() == old(self).queue(),
                self.connected_set() == old(self).connected_set(),
                self.pending_identified() == old(self).pending_identified(),
            decreases topics@.len() - i,
        {
            let topic = topics[i].clone();
            let copy = message.clone();
            proof {
                assert(copy@ =~= message@);
            }
            let ghost before = command_views(self.commands@);
            self.commands.push(Command::Publish { topic, message: copy });
            proof {
                assert(command_views(self.commands@) =~= before.push(CommandModel::Publish(topics@[i as int]@, message@)));
                assert(string_views(topics@.take(i + 1)) =~= string_views(topics@.take(i as int)).push(topics@[i as int]@));
                assert(publish_commands::<R>(string_views(topics@.take(i + 1)), message@) =~=
                    publish_commands::<R>(string_views(topics@.take(i as int)), message@).push(CommandModel::Publish(topics@[i as int]@, message@)));
            }
            i = i + 1;
        }
        proof {
            assert(topics@.take(topics@.len() as int) =~= topics@);
        }
    }

    /// Asks the request/response engine to send a request, response or error
    /// to a peer. Its outcome comes later as an engine event.
    pub fn send_rpc(&mut self, peer_id: PeerId, rpc_event: R)
        requires
            old(self).wf(),
        ensures
            final(self).wf(),
            final(self).pending_commands() == old(self).pending_commands().push(
                CommandModel::SendRpc(peer_id@, rpc_event),
            ),
            final(self).injected() == old(self).injected(),
            final(self).delivered() == old(self).delivered(),
            final(self).queue() == old(self).queue(),
            final(self).connected_set() == old(self).connected_set(),
            final(self).pending_identified() == old(self).pending_identified(),
    {
        self.commands.push(Command::SendRpc(peer_id, rpc_event));
        proof {
            assert(command_views(self.commands@) =~= command_views(old(self).commands@).push(
                CommandModel::SendRpc(peer_id@, rpc_event),
            ));
        }
    }

    /// Takes the oldest command for the engines, or `None` when none waits.
    pub fn next_command(&mut self) -> (r: Option<Command<R>>)
        requires
            old(self).wf(),
        ensures
            final(self).wf(),
            old(self).pending_commands().len() == 0 ==> r.is_none()
                && final(self).pending_commands() == old(self).pending_commands(),
            old(self).pending_commands().len() > 0 ==> r.is_some()
                && r.unwrap()@ == old(self).pending_commands()[0]
                && final(self).pending_commands() == old(self).pending_commands().drop_first(),
            final(self).injected() == old(self).injected(),
            final(self).delivered() == old(self).delivered(),
            final(self).queue() == old(self).queue(),
            final(self).connected_set() == old(self).connected_set(),
            final(self).pending_identified() == old(self).pending_identified(),
    {
        if self.commands.len() == 0 {
            return None;
        }
        let c = self.commands.remove(0);
        proof {
            assert(command_views(self.commands@) =~= command_views(old(self).commands@).drop_first());
        }
        Some(c)
    }

    /// Takes the oldest identified peer kept for diagnostics, or `None` when
    /// none waits.
    pub fn next_identified(&mut self) -> (r: Option<Identified>)
        requires
            old(self).wf(),
        ensures
            final(self).wf(),
            old(self).pending_identified().len() == 0 ==> r.is_none()
                && final(self).pending_identified() == old(self).pending_identified(),
            old(self).pending_identified().len() > 0 ==> r == Some(old(self).pending_identified()[0])
                && final(self).pending_identified() == old(self).pending_identified().drop_first(),
            final(self).injected() == old(self).injected(),
            final(self).delivered() == old(self).delivered(),
            final(self).queue() == old(self).queue(),
            final(self).connected_set() == old(self).connected_set(),
            final(self).pending_commands() == old(self).pending_commands(),
    {
        if self.identified.len() == 0 {
            return None;
        }
        let r = self.identified.remove(0);
        proof {
            assert(self.identified@ =~= old(self).identified@.drop_first());
        }
        Some(r)
    }

    /// The connected peers, each once.
    pub fn connected_peers(&self) -> (r: Vec<PeerId>)
        requires
            self.wf(),
        ensures
            peer_views(r@).no_duplicates(),
            peer_views(r@).to_set() == self.connected_set(),
    {
        let mut r: Vec<PeerId> = Vec::new();
        let mut i: usize = 0;
        while i < self.connected.len()
            invariant
                i <= self.connected@.len(),
                peer_views(r@) == peer_views(self.connected@.take(i as int)),
            decreases self.connected@.len() - i,
        {
            let p = self.connected[i].copy();
            let ghost r0 = r@;
            r.push(p);
            proof {
                assert(peer_views(self.connected@.take(i + 1)) =~= peer_views(self.connected@.take(i as int)).push(p@));
                assert(peer_views(r@) =~= peer_views(r0).push(p@));
            }
            i = i + 1;
        }
        proof {
            assert(self.connected@.take(self.connected@.len() as int) =~= self.connected@);
        }
        r
    }

    /// How many peers are connected.
    pub fn num_connected_peers(&self) -> (r: usize)
        requires
            self.wf(),
        ensures
            r == self.connected_set().len(),
    {
        proof {
            assert(peer_views(self.connected@).no_duplicates());
            peer_views(self.connected@).unique_seq_to_set();
        }
        self.connected.len()
    }

    /// Where a peer stands among the connected ones, if it is connected.
    fn position_of_peer(&self, p: &PeerId) -> (r: Option<usize>)
        ensures
            match r {
                Some(i) => i < self.connected@.len() && self.connected@[i as int]@ == p@,
                None => !peer_views(self.connected@).contains(p@),
            },
    {
        let mut i: usize = 0;
        while i < self.connected.len()
            invariant
                i <= self.connected@.len(),
                forall|j: int| 0 <= j < i ==> self.connected@[j]@ != p@,
            decreases self.connected@.len() - i,
        {
            if self.connected[i].same(p) {
                return Some(i);
            }
            i = i + 1;
        }
        proof {
            let v = peer_views(self.connected@);
            if v.contains(p@) {
                let j = choose|j: int| 0 <= j < v.len() && v[j] == p@;
                assert(self.connected@[j]@ == p@);
            }
        }
        None
    }

    /// Whether translated events wait to be handed out.
    pub fn has_pending(&self) -> (r: bool)
        ensures
            r == (self.queue().len() > 0),
    {
        self.events.len() > 0
    }

    /// Hands out the oldest waiting event, or `None` when none waits.
    pub fn poll(&mut self) -> (r: Option<BehaviourEvent<R>>)
        requires
            old(self).wf(),
        ensures
            final(self).wf(),
            final(self).injected() == old(self).injected(),
            final(self).connected_set() == old(self).connected_set(),
            final(self).pending_commands() == old(self).pending_commands(),
            final(self).pending_identified() == old(self).pending_identified(),
            old(self).queue().len() == 0 ==> {
                &&& r.is_none()
                &&& final(self).queue() == old(self).queue()
                &&& final(self).delivered() == old(self).delivered()
            },
            old(self).queue().len() > 0 ==> {
                &&& r.is_some()
                &&& r.unwrap()@ == old(self).queue()[0]
                &&& final(self).queue() == old(self).queue().drop_first()
                &&& final(self).delivered() == old(self).delivered().push(old(self).queue()[0])
            },
    {
        if self.events.len() == 0 {
            return None;
        }
        let ghost q0 = self.events@;
        let e = self.events.remove(0);
        proof {
            assert(event_views(self.events@) =~= event_views(q0).drop_first());
            self.delivered@ = self.delivered@.push(e@);
            assert(self.delivered@ + self.queue() =~= old(self).delivered@ + old(self).queue());
        }
        Some(e)
    }

    /// One round of the driver's poll: translates what the engines produced
    /// when polled once, in the fixed order of the engines, then hands out the
    /// oldest waiting event, or `None` when none waits. The driver polls the
    /// engines only while `has_pending()` is false, and otherwise hands in an
    /// empty round, so that a waiting event goes out before the engines are
    /// asked for more.
    pub fn poll_round(&mut self, round: EngineRound<R>) -> (r: Option<BehaviourEvent<R>>)
        requires
            old(self).wf(),
        ensures
            final(self).wf(),
            final(self).injected() == round.appended_to(old(self).injected()),
            final(self).connected_set() == run(final(self).injected()).0,
            final(self).pending_commands() == old(self).pending_commands(),
            ({
                let all = run(final(self).injected()).1;
                let n = old(self).delivered().len();
                &&& all.len() > n ==> {
                    &&& r.is_some()
                    &&& r.unwrap()@ == all[n as int]
                    &&& final(self).delivered() == old(self).delivered().push(all[n as int])
                }
                &&& all.len() <= n ==> {
                    &&& r.is_none()
                    &&& final(self).delivered() == old(self).delivered()
                }
            }),
    {
        let EngineRound { gossip, rpc, ping, identify, discovery } = round;
        if let Some(g) = gossip {
            self.inject_event(EngineEvent::Gossip(g));
        }
        if let Some(m) = rpc {
            self.inject_event(EngineEvent::Rpc(m));
        }
        if let Some(p) = ping {
            self.inject_event(EngineEvent::Ping(p));
        }
        if let Some(i) = identify {
            self.inject_event(EngineEvent::Identify(i));
        }
        if let Some(x) = discovery {
            self.inject_event(EngineEvent::Discovery(x));
        }
        self.poll()
    }

    /// Translates one event of an engine.
    ///
    /// A received message is queued as a pub-sub event, a request/response
    /// event as it is; a dial is queued for a peer not yet connected, which
    /// then counts as connected; a disconnect is queued for a connected peer,
    /// which then no longer counts as connected. An identified peer is kept for
    /// diagnostics with at most `MAX_IDENTIFY_ADDRESSES` listen addresses, the
    /// first ones. Everything else is dropped.
    pub fn inject_event(&mut self, ev: EngineEvent<R>)
        requires
            old(self).wf(),
        ensures
            final(self).wf(),
            final(self).injected() == old(self).injected().push(ev@),
            final(self).delivered() == old(self).delivered(),
            final(self).queue() == old(self).queue() + step(old(self).connected_set(), ev@).1,
            final(self).connected_set() == step(old(self).connected_set(), ev@).0,
            final(self).pending_commands() == old(self).pending_commands(),
            match ev {
                EngineEvent::Identify(IdentifyEvent::Identified { peer_id, info }) => {
                    let n = old(self).pending_identified().len();
                    &&& final(self).pending_identified().len() == n + 1
                    &&& final(self).pending_identified().take(n as int) == old(self).pending_identified()
                    &&& final(self).pending_identified()[n as int].peer_id@ == peer_id@
                    &&& final(self).pending_identified()[n as int].info.listen_addrs@
                        == bounded_addrs(info.listen_addrs@)
                    &&& final(self).pending_identified()[n as int].info.protocol_version
                        == info.protocol_version
                    &&& final(self).pending_identified()[n as int].info.agent_version
                        == info.agent_version
                    &&& final(self).pending_identified()[n as int].info.protocols == info.protocols
                    &&& final(self).pending_identified()[n as int].info.public_key == info.public_key
                },
                _ => final(self).pending_identified() == old(self).pending_identified(),
            },
    {
        let ghost v = ev@;
        let ghost c0 = self.connected_set();
        let ghost q0 = self.events@;
        let ghost ids0 = self.identified@;
        proof {
            lemma_run_push(self.injected@, v);
        }
        match ev {
            EngineEvent::Gossip(GossipsubEvent::Message(m)) => {
                self.events.push(
                    BehaviourEvent::PubsubMessage { source: m.source, topics: m.topics, message: m.data },
                );
            },
            EngineEvent::Rpc(RPCMessage::PeerDialed(p)) => {
                match self.position_of_peer(&p) {
                    Some(_) => {
                        proof {
                            let i = choose|i: int| 0 <= i < self.connected@.len() && self.connected@[i]@ == p@;
                            assert(peer_views(self.connected@)[i] == p@);
                        }
                    },
                    None => {
                        let q = p.copy();
                        proof {
                            lemma_push_unique(peer_views(self.connected@), q@);
                            assert(peer_views(self.connected@.push(q)) =~= peer_views(self.connected@).push(q@));
                        }
                        self.connected.push(q);
                        self.events.push(BehaviourEvent::PeerDialed(p));
                    },
                }
            },
            EngineEvent::Rpc(RPCMessage::PeerDisconnected(p)) => {
                match self.position_of_peer(&p) {
                    Some(i) => {
                        proof {
                            lemma_remove_from_unique(peer_views(self.connected@), i as int);
                            assert(peer_views(self.connected@.remove(i as int)) =~= peer_views(self.connected@).remove(i as int));
                        }
                        self.connected.remove(i);
                        self.events.push(BehaviourEvent::PeerDisconnected(p));
                    },
                    None => {},
                }
            },
            EngineEvent::Rpc(RPCMessage::RPC(p, r)) => {
                self.events.push(BehaviourEvent::RPC(p, r));
            },
            EngineEvent::Identify(IdentifyEvent::Identified { peer_id, info }) => {
                let info = bound_identify_info(info);
                self.identified.push(Identified { peer_id, info });
                assert(self.identified@.take(ids0.len() as int) =~= ids0);
            },
            _ => {},
        }
        proof {
            assert(event_views(self.events@) =~= event_views(q0) + step(c0, v).1);
            self.injected@ = self.injected@.push(v);
            assert(peer_views(self.connected@).no_duplicates());
            assert(run(self.injected@).0 == self.connected_set());
            assert(run(self.injected@).1 == self.delivered@ + self.queue());
        }
    }
}

/// Why the gossip engine refused a subscription.
pub enum SubscriptionError {
    /// Announcing the subscription to the peers failed.
    PublishError,
    /// The engine's subscription filter does not allow the topic.
    NotAllowed,
}

/// Whether a subscription changed the engine's subscriptions, from the
/// engine's answer: `Ok(true)` for a new subscription, `Ok(false)` for a
/// topic subscribed already, an error when it refused.
pub fn subscription_changed(answer: &Result<bool, SubscriptionError>) -> (r: bool)
    ensures
        r == (*answer == Ok::<bool, SubscriptionError>(true)),
{
    match answer {
        Ok(changed) => *changed,
        Err(_) => false,
    }
}

/// Events are handed out in the order of arrival: what has been handed out
/// so far, followed by what waits, is exactly the translation of every engine
/// event handed in, in order.
pub proof fn lemma_handed_out_in_order<R>(b: Behaviour<R>)
    requires
        b.wf(),
    ensures
        b.delivered() + b.queue() == run(b.injected()).1,
        b.delivered() == run(b.injected()).1.take(b.delivered().len() as int),
{
    assert((b.delivered() + b.queue()).take(b.delivered().len() as int) =~= b.delivered());
}

/// The connected peers are those that the translation of every engine event
/// handed in leaves connected.
pub proof fn lemma_connected_is_translation<R>(b: Behaviour<R>)
    requires
        b.wf(),
    ensures
        b.connected_set() == run(b.injected()).0,
{
}

/// For every peer, the dials and disconnects handed out so far alternate,
/// starting with a dial.
pub proof fn lemma_handed_out_lifecycle_alternates<R>(b: Behaviour<R>, p: Seq<char>)
    requires
        b.wf(),
    ensures
        alternating(lifecycle(b.delivered(), p)),
{
    let all = run(b.injected()).1;
    lemma_handed_out_in_order(b);
    lemma_lifecycle_alternates(b.injected(), p);
    lemma_lifecycle_prefix(all, b.delivered().len() as int, p);
}

/// A peer counts as connected exactly when the last of its transitions
/// translated so far, handed out or not, is a dial.
pub proof fn lemma_connected_iff_last_dialed<R>(b: Behaviour<R>, p: Seq<char>)
    requires
        b.wf(),
    ensures
        b.connected_set().contains(p) <==> {
            let l = lifecycle(b.delivered() + b.queue(), p);
            l.len() > 0 && l.last()
        },
{
    lemma_lifecycle_alternates(b.injected(), p);
    let l = lifecycle(run(b.injected()).1, p);
    if l.len() > 0 {
        assert(l.last() == ((l.len() - 1) % 2 == 0));
    }
}

} // verus!
