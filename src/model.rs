use vstd::prelude::*;
use crate::engine::{push_some, EngineRound, NativeModel};
use crate::types::EventModel;

verus! {

/// The outward events that one engine event becomes, given the peers that are
/// connected before it, and the connected peers after it.
///
/// A message becomes one pub-sub event, a request/response event one event for
/// the driver. A dial is reported only for a peer not yet connected, a
/// disconnect only for a connected one. Everything else is dropped.
pub open spec fn step<R>(connected: Set<Seq<char>>, e: NativeModel<R>) -> (Set<Seq<char>>, Seq<EventModel<R>>) {
    match e {
        NativeModel::Message(s, t, d) => (connected, seq![EventModel::Pubsub(s, t, d)]),
        NativeModel::Dialed(p) => if connected.contains(p) {
            (connected, Seq::empty())
        } else {
            (connected.insert(p), seq![EventModel::Dialed(p)])
        },
        NativeModel::Disconnected(p) => if connected.contains(p) {
            (connected.remove(p), seq![EventModel::Disconnected(p)])
        } else {
            (connected, Seq::empty())
        },
        NativeModel::Rpc(p, r) => (connected, seq![EventModel::Rpc(p, r)]),
        NativeModel::Other => (connected, Seq::empty()),
    }
}

/// The connected peers and the outward events, in order, after a sequence of
/// engine events, starting with no peer connected.
pub open spec fn run<R>(s: Seq<NativeModel<R>>) -> (Set<Seq<char>>, Seq<EventModel<R>>)
    decreases s.len(),
{
    if s.len() == 0 {
        (Set::empty(), Seq::empty())
    } else {
        let prev = run(s.drop_last());
        let next = step(prev.0, s.last());
        (next.0, prev.1 + next.1)
    }
}

/// The connection transitions of one peer in a sequence of outward events:
/// `true` for a dial, `false` for a disconnect.
pub open spec fn lifecycle<R>(out: Seq<EventModel<R>>, p: Seq<char>) -> Seq<bool>
    decreases out.len(),
{
    if out.len() == 0 {
        Seq::empty()
    } else {
        let prev = lifecycle(out.drop_last(), p);
        match out.last() {
            EventModel::Dialed(q) => if q == p { prev.push(true) } else { prev },
            EventModel::Disconnected(q) => if q == p { prev.push(false) } else { prev },
            _ => prev,
        }
    }
}

/// A sequence of transitions that starts with a dial and alternates.
pub open spec fn alternating(s: Seq<bool>) -> bool {
    forall|i: int| 0 <= i < s.len() ==> s[i] == (i % 2 == 0)
}

proof fn lemma_lifecycle_push<R>(out: Seq<EventModel<R>>, more: Seq<EventModel<R>>, p: Seq<char>)
    requires
        more.len() <= 1,
    ensures
        more.len() == 0 ==> lifecycle(out + more, p) == lifecycle(out, p),
        more.len() == 1 ==> lifecycle(out + more, p) == lifecycle(out.push(more[0]), p),
{
    if more.len() == 0 {
        assert(out + more =~= out);
    } else {
        assert(out + more =~= out.push(more[0]));
    }
}

/// For every peer, the dials and disconnects reported for it alternate,
/// starting with a dial; the peer counts as connected exactly when the last
/// of them is a dial.
pub proof fn lemma_lifecycle_alternates<R>(s: Seq<NativeModel<R>>, p: Seq<char>)
    ensures
        alternating(lifecycle(run(s).1, p)),
        run(s).0.contains(p) <==> lifecycle(run(s).1, p).len() % 2 == 1,
    decreases s.len(),
{
    if s.len() > 0 {
        let prev = run(s.drop_last());
        let next = step(prev.0, s.last());
        lemma_lifecycle_alternates(s.drop_last(), p);
        lemma_lifecycle_push(prev.1, next.1, p);
        if next.1.len() == 1 {
            let out = prev.1.push(next.1[0]);
            assert(out.drop_last() =~= prev.1);
        }
        let l0 = lifecycle(prev.1, p);
        let l1 = lifecycle(run(s).1, p);
        assert forall|i: int| 0 <= i < l1.len() implies l1[i] == (i % 2 == 0) by {
            if i < l0.len() {
                assert(l1[i] == l0[i]);
            }
        }
    }
}

/// Translating a sequence of engine events is translating them one by one:
/// the outward events of the whole are those of the first part followed by
/// what the last event adds.
pub proof fn lemma_run_push<R>(s: Seq<NativeModel<R>>, e: NativeModel<R>)
    ensures
        run(s.push(e)).0 == step(run(s).0, e).0,
        run(s.push(e)).1 == run(s).1 + step(run(s).0, e).1,
{
    assert(s.push(e).drop_last() =~= s);
}

/// The outward events that an engine event, if there is one, becomes.
pub open spec fn step_some<R>(connected: Set<Seq<char>>, e: Option<NativeModel<R>>) -> Seq<EventModel<R>> {
    match e {
        Some(x) => step(connected, x).1,
        None => Seq::empty(),
    }
}

proof fn lemma_run_push_some<R>(s: Seq<NativeModel<R>>, e: Option<NativeModel<R>>)
    ensures
        run(push_some(s, e)).1 == run(s).1 + step_some(run(s).0, e),
{
    match e {
        Some(x) => lemma_run_push(s, x),
        None => assert(run(s).1 + Seq::<EventModel<R>>::empty() =~= run(s).1),
    }
}

/// Within one round the order of the engines breaks ties: what the gossip
/// engine produced comes out first, then what the request/response,
/// liveness, identify and discovery engines produced, in that order, all
/// after the events of earlier rounds.
pub proof fn lemma_round_in_engine_order<R>(s: Seq<NativeModel<R>>, round: EngineRound<R>)
    ensures
        ({
            let a = push_some(s, round.gossip_model());
            let b = push_some(a, round.rpc_model());
            let c = push_some(b, round.ping_model());
            let d = push_some(c, round.identify_model());
            run(round.appended_to(s)).1 == run(s).1
                + step_some(run(s).0, round.gossip_model())
                + step_some(run(a).0, round.rpc_model())
                + step_some(run(b).0, round.ping_model())
                + step_some(run(c).0, round.identify_model())
                + step_some(run(d).0, round.discovery_model())
        }),
{
    let a = push_some(s, round.gossip_model());
    let b = push_some(a, round.rpc_model());
    let c = push_some(b, round.ping_model());
    let d = push_some(c, round.identify_model());
    lemma_run_push_some(s, round.gossip_model());
    lemma_run_push_some(a, round.rpc_model());
    lemma_run_push_some(b, round.ping_model());
    lemma_run_push_some(c, round.identify_model());
    lemma_run_push_some(d, round.discovery_model());
}

/// Translation keeps arrival order: the outward events of a sequence of
/// engine events start with those of any first part of it.
pub proof fn lemma_run_prefix<R>(s: Seq<NativeModel<R>>, t: Seq<NativeModel<R>>)
    ensures
        run(s).1.len() <= run(s + t).1.len(),
        run(s + t).1.take(run(s).1.len() as int) == run(s).1,
    decreases t.len(),
{
    if t.len() == 0 {
        assert(s + t =~= s);
        assert(run(s).1.take(run(s).1.len() as int) =~= run(s).1);
    } else {
        let u = t.drop_last();
        lemma_run_prefix(s, u);
        assert((s + t).drop_last() =~= s + u);
        let prev = run(s + u).1;
        let all = run(s + t).1;
        assert(all.take(run(s).1.len() as int) =~= prev.take(run(s).1.len() as int));
    }
}

/// The transitions of a peer within a first part of the outward events are a
/// first part of its transitions.
pub proof fn lemma_lifecycle_prefix<R>(out: Seq<EventModel<R>>, n: int, p: Seq<char>)
    requires
        0 <= n <= out.len(),
    ensures
        lifecycle(out.take(n), p).len() <= lifecycle(out, p).len(),
        lifecycle(out.take(n), p) == lifecycle(out, p).take(lifecycle(out.take(n), p).len() as int),
    decreases out.len(),
{
    if n == out.len() {
        assert(out.take(n) =~= out);
        assert(lifecycle(out, p).take(lifecycle(out, p).len() as int) =~= lifecycle(out, p));
    } else {
        let d = out.drop_last();
        lemma_lifecycle_prefix(d, n, p);
        assert(d.take(n) =~= out.take(n));
        let l = lifecycle(out, p);
        let k = lifecycle(out.take(n), p).len() as int;
        assert(l.take(k) =~= lifecycle(d, p).take(k));
    }
}

} // verus!
