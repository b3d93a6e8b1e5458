use std::collections::HashMap;
use vstd::prelude::*;
use vstd::std_specs::iter::IteratorSpec;

verus! {

broadcast use vstd::std_specs::hash::group_hash_axioms;

/// An inbound publish as it is handed to subscribers: a topic and its payload.
pub struct PublishedEvent {
    pub topic: String,
    pub payload: Vec<u8>,
}

/// What a relay is asked to do.
pub enum MqttMessage<H> {
    /// Fan an inbound publish out to every attached subscriber.
    Message(PublishedEvent),
    /// Attach a subscriber under its identifier.
    Sub((i32, H)),
    /// Detach the subscriber with this identifier.
    Unsub(i32),
    /// The broker connection is gone: detach everyone.
    Disconnect,
}

/// What the caller has to carry out after a relay handled a message.
pub enum RelayOutput<H> {
    /// Push the event to each listed subscriber, then report the closed ones
    /// through `prune`.
    Deliver(PublishedEvent, Vec<i32>),
    /// Nothing to send.
    Idle,
    /// These subscribers were detached for good: signal closure to each, once.
    Closed(Vec<(i32, H)>),
}

/// The fan-out of one broker connection: the subscribers attached to it, each
/// under its caller-chosen identifier.
pub struct MqttClientActor<H> {
    ws_subs: HashMap<i32, H>,
}

impl<H> View for MqttClientActor<H> {
    type V = Map<i32, H>;

    closed spec fn view(&self) -> Map<i32, H> {
        self.ws_subs@
    }
}

impl<H> MqttClientActor<H> {
    /// A relay with no subscriber attached.
    pub fn new() -> (r: Self)
        ensures
            r@ == Map::<i32, H>::empty(),
    {
        MqttClientActor { ws_subs: HashMap::new() }
    }

    /// Attaches `handle` under `ws_id`; a handle already attached under that
    /// identifier is replaced.
    pub fn attach(&mut self, ws_id: i32, handle: H)
        ensures
            final(self)@ == old(self)@.insert(ws_id, handle),
    {
        self.ws_subs.insert(ws_id, handle);
    }

    /// Detaches the subscriber `ws_id`; nothing happens when it is not attached.
    pub fn detach(&mut self, ws_id: i32)
        ensures
            final(self)@ == old(self)@.remove(ws_id),
    {
        self.ws_subs.remove(&ws_id);
    }

    /// The handle attached under `ws_id`, if any.
    pub fn handle_of(&self, ws_id: i32) -> (r: Option<&H>)
        ensures
            r matches Some(h) ==> self@.contains_key(ws_id) && *h == self@[ws_id],
            r is None ==> !self@.contains_key(ws_id),
    {
        self.ws_subs.get(&ws_id)
    }

    /// The identifiers attached at this moment, each once.
    pub fn subscriber_ids(&self) -> (r: Vec<i32>)
        ensures
            r@.no_duplicates(),
            r@.to_set() == self@.dom(),
    {
        let mut ids: Vec<i32> = Vec::new();
        let keys = self.ws_subs.keys();
        let ghost all = keys.remaining().unref();
        for id in it: keys
            invariant
                it.seq().unref() == all,
                all.to_set() == self@.dom(),
                all.no_duplicates(),
                ids@ == all.take(it.index() as int),
        {
            proof {
                assert(*id == all[it.index()]);
            }
            ids.push(*id);
            proof {
                assert(ids@ =~= all.take(it.index() + 1));
            }
        }
        proof {
            assert(ids@ =~= all);
        }
        ids
    }

    /// Detaches every subscriber whose handle reported itself closed while an
    /// event was pushed to it; the others stay attached.
    pub fn prune(&mut self, closed: &Vec<i32>)
        ensures
            final(self)@ == old(self)@.remove_keys(closed@.to_set()),
    {
        let mut i: usize = 0;
        while i < closed.len()
            invariant
                i <= closed.len(),
                self@ == old(self)@.remove_keys(closed@.take(i as int).to_set()),
            decreases closed.len() - i,
        {
            let id = closed[i];
            self.ws_subs.remove(&id);
            proof {
                assert(closed@.take(i + 1) =~= closed@.take(i as int).push(id));
                lemma_push_to_set(closed@.take(i as int), id);
                assert(self@ =~= old(self)@.remove_keys(closed@.take(i + 1).to_set()));
            }
            i = i + 1;
        }
        proof {
            assert(closed@.take(closed@.len() as int) =~= closed@);
        }
    }

    /// Detaches every subscriber and hands each one back with its identifier,
    /// so that the caller can signal closure to it exactly once.
    pub fn shutdown(&mut self) -> (r: Vec<(i32, H)>)
        ensures
            final(self)@ == Map::<i32, H>::empty(),
            pair_map(r@) == old(self)@,
            ids_of(r@).no_duplicates(),
    {
        let ids = self.subscriber_ids();
        let mut out: Vec<(i32, H)> = Vec::new();
        let mut i: usize = 0;
        while i < ids.len()
            invariant
                i <= ids.len(),
                ids@.no_duplicates(),
                ids@.to_set() == old(self)@.dom(),
                ids_of(out@) == ids@.take(i as int),
                self@ == old(self)@.remove_keys(ids@.take(i as int).to_set()),
                forall|j: int| 0 <= j < out@.len() ==> old(self)@.contains_key(#[trigger] out@[j].0) && old(self)@[out@[j].0] == out@[j].1,
            decreases ids.len() - i,
        {
            let id = ids[i];
            proof {
                assert(self@.contains_key(id)) by {
                    assert(ids@.contains(id));
                    assert(!ids@.take(i as int).contains(id)) by {
                        if ids@.take(i as int).contains(id) {
                            let k = choose|k: int| 0 <= k < i && ids@[k] == id;
                            assert(ids@[k] == ids@[i as int]);
                        }
                    }
                }
            }
            let h = self.ws_subs.remove(&id);
            match h {
                Some(h) => {
                    out.push((id, h));
                },
                None => {},
            }
            proof {
                assert(ids@.take(i + 1) =~= ids@.take(i as int).push(id));
                lemma_push_to_set(ids@.take(i as int), id);
                assert(ids_of(out@) =~= ids@.take(i + 1));
                assert(self@ =~= old(self)@.remove_keys(ids@.take(i + 1).to_set()));
            }
            i = i + 1;
        }
        proof {
            assert(ids@.take(ids@.len() as int) =~= ids@);
            assert(self@ =~= Map::<i32, H>::empty());
            lemma_pair_map_of(out@, old(self)@);
        }
        out
    }

    /// Handles one message: fans out an event, attaches, detaches, or shuts
    /// down.
    pub fn handle(&mut self, msg: MqttMessage<H>) -> (r: RelayOutput<H>)
        ensures
            match msg {
                MqttMessage::Message(ev) => {
                    &&& final(self)@ == old(self)@
                    &&& r matches RelayOutput::Deliver(out, ids) && out == ev
                        && ids@.no_duplicates() && ids@.to_set() == old(self)@.dom()
                },
                MqttMessage::Sub((id, h)) => {
                    final(self)@ == old(self)@.insert(id, h) && r is Idle
                },
                MqttMessage::Unsub(id) => {
                    final(self)@ == old(self)@.remove(id) && r is Idle
                },
                MqttMessage::Disconnect => {
                    &&& final(self)@ == Map::<i32, H>::empty()
                    &&& r matches RelayOutput::Closed(subs) && pair_map(subs@) == old(self)@
                        && ids_of(subs@).no_duplicates()
                },
            },
    {
        match msg {
            MqttMessage::Message(ev) => {
                let ids = self.subscriber_ids();
                RelayOutput::Deliver(ev, ids)
            },
            MqttMessage::Sub((id, h)) => {
                self.attach(id, h);
                RelayOutput::Idle
            },
            MqttMessage::Unsub(id) => {
                self.detach(id);
                RelayOutput::Idle
            },
            MqttMessage::Disconnect => {
                let subs = self.shutdown();
                RelayOutput::Closed(subs)
            },
        }
    }
}

pub(crate) proof fn lemma_push_to_set<A>(s: Seq<A>, x: A)
    ensures
        s.push(x).to_set() == s.to_set().insert(x),
{
    assert forall|y: A| #[trigger] s.push(x).to_set().contains(y) <==> s.to_set().insert(x).contains(y) by {
        if s.push(x).contains(y) && y != x {
            let k = choose|k: int| 0 <= k < s.len() + 1 && s.push(x)[k] == y;
            assert(k < s.len());
            assert(s[k] == y);
        }
        if s.contains(y) {
            let k = choose|k: int| 0 <= k < s.len() && s[k] == y;
            assert(s.push(x)[k] == y);
        }
        if y == x {
            assert(s.push(x)[s.len() as int] == x);
        }
    }
    assert(s.push(x).to_set() =~= s.to_set().insert(x));
}

/// The identifiers of a list of (identifier, handle) pairs, in order.
pub open spec fn ids_of<H>(s: Seq<(i32, H)>) -> Seq<i32> {
    s.map_values(|p: (i32, H)| p.0)
}

/// The map that a list of (identifier, handle) pairs with distinct
/// identifiers describes.
pub open spec fn pair_map<H>(s: Seq<(i32, H)>) -> Map<i32, H> {
    Map::new(
        |k: i32| ids_of(s).contains(k),
        |k: i32| s[ids_of(s).index_of(k)].1,
    )
}

proof fn lemma_pair_map_of<H>(s: Seq<(i32, H)>, m: Map<i32, H>)
    requires
        ids_of(s).no_duplicates(),
        ids_of(s).to_set() == m.dom(),
        forall|j: int| 0 <= j < s.len() ==> m[#[trigger] s[j].0] == s[j].1,
    ensures
        pair_map(s) == m,
{
    assert forall|k: i32| #[trigger] pair_map(s).contains_key(k) <==> m.contains_key(k) by {
        assert(ids_of(s).to_set().contains(k) <==> ids_of(s).contains(k));
    }
    assert forall|k: i32| #[trigger] m.contains_key(k) implies pair_map(s)[k] == m[k] by {
        assert(ids_of(s).to_set().contains(k));
        let j = ids_of(s).index_of(k);
        assert(ids_of(s)[j] == k);
        assert(s[j].0 == k);
    }
    assert(pair_map(s) =~= m);
}

/// One change of a relay's membership.
pub enum Membership<H> {
    Attach(i32, H),
    Detach(i32),
}

/// Whether `op` concerns the subscriber `id`.
pub open spec fn touches<H>(op: Membership<H>, id: i32) -> bool {
    match op {
        Membership::Attach(x, _) => x == id,
        Membership::Detach(x) => x == id,
    }
}

/// The handle that `op` attaches, if it is an attach.
pub open spec fn attached_handle<H>(op: Membership<H>) -> Option<H> {
    match op {
        Membership::Attach(_, h) => Some(h),
        Membership::Detach(_) => None,
    }
}

/// Whether the relay went from `before` to `after` by `op`, as `attach` and
/// `detach` state it.
pub open spec fn follows<H>(op: Membership<H>, before: Map<i32, H>, after: Map<i32, H>) -> bool {
    match op {
        Membership::Attach(id, h) => after == before.insert(id, h),
        Membership::Detach(id) => after == before.remove(id),
    }
}

/// Whether `ops[i]` attaches `id` and is the last change of `ops` that
/// concerns `id`.
pub open spec fn last_change_at<H>(ops: Seq<Membership<H>>, id: i32, i: int) -> bool {
    &&& 0 <= i < ops.len()
    &&& touches(ops[i], id)
    &&& ops[i] is Attach
    &&& forall|j: int| i < j < ops.len() ==> !touches(#[trigger] ops[j], id)
}

/// Whether the last change of `ops` that concerns `id` attaches it.
pub open spec fn last_change_attaches<H>(ops: Seq<Membership<H>>, id: i32) -> bool {
    exists|i: int| last_change_at(ops, id, i)
}

/// For every sequence of attaches and detaches on a relay that starts empty,
/// the subscribers attached at the end are exactly those whose last change
/// was an attach, each with the handle of that attach: each attach adds or
/// replaces one, each detach takes one away, and a detach of a subscriber
/// that is not attached changes nothing.
pub proof fn lemma_membership_follows_changes<H>(states: Seq<Map<i32, H>>, ops: Seq<Membership<H>>)
    requires
        states.len() == ops.len() + 1,
        states[0] == Map::<i32, H>::empty(),
        forall|i: int| 0 <= i < ops.len() ==> follows(#[trigger] ops[i], states[i], states[i + 1]),
    ensures
        forall|id: i32| #[trigger] states.last().contains_key(id) <==> last_change_attaches(ops, id),
        forall|id: i32, i: int|
            #[trigger] last_change_at(ops, id, i) ==> states.last().contains_key(id) && attached_handle(
                ops[i],
            ) == Some(states.last()[id]),
        forall|i: int, id: i32|
            #![trigger ops[i], states[i].contains_key(id)]
            0 <= i < ops.len() && ops[i] == Membership::<H>::Detach(id) && !states[i].contains_key(id)
                ==> states[i + 1] == states[i],
    decreases ops.len(),
{
    assert forall|i: int, id: i32|
        #![trigger ops[i], states[i].contains_key(id)]
        0 <= i < ops.len() && ops[i] == Membership::<H>::Detach(id) && !states[i].contains_key(id)
            implies states[i + 1] == states[i] by {
        assert(follows(ops[i], states[i], states[i + 1]));
        assert(states[i + 1] =~= states[i]);
    }
    if ops.len() == 0 {
        assert(states.last() == states[0]);
    } else {
        let n = ops.len() - 1;
        let pre_s = states.drop_last();
        let pre_o = ops.drop_last();
        assert forall|i: int| 0 <= i < pre_o.len() implies follows(#[trigger] pre_o[i], pre_s[i], pre_s[i + 1]) by {
            assert(follows(ops[i], states[i], states[i + 1]));
        }
        lemma_membership_follows_changes(pre_s, pre_o);
        assert(pre_s.last() == states[n]);
        assert(states.last() == states[n + 1]);
        assert(follows(ops[n], states[n], states[n + 1]));
        assert forall|id: i32, i: int| #[trigger] last_change_at(ops, id, i) implies states.last().contains_key(id)
            && attached_handle(ops[i]) == Some(states.last()[id]) by {
            if i < n {
                assert(!touches(ops[n], id));
                assert(pre_o[i] == ops[i]);
                assert forall|j: int| i < j < pre_o.len() implies !touches(#[trigger] pre_o[j], id) by {
                    assert(pre_o[j] == ops[j]);
                }
                assert(last_change_at(pre_o, id, i));
            }
        }
        assert forall|id: i32| #[trigger] states.last().contains_key(id) <==> last_change_attaches(ops, id) by {
            if touches(ops[n], id) {
                match ops[n] {
                    Membership::Attach(x, h) => {
                        assert(last_change_at(ops, id, n));
                    },
                    Membership::Detach(x) => {
                        if last_change_attaches(ops, id) {
                            let i = choose|i: int| last_change_at(ops, id, i);
                            assert(i != n);
                        }
                    },
                }
            } else {
                assert(states[n + 1].contains_key(id) == states[n].contains_key(id));
                if last_change_attaches(pre_o, id) {
                    let i = choose|i: int| last_change_at(pre_o, id, i);
                    assert(pre_o[i] == ops[i]);
                    assert forall|j: int| i < j < ops.len() implies !touches(#[trigger] ops[j], id) by {
                        if j < n {
                            assert(ops[j] == pre_o[j]);
                        }
                    }
                    assert(last_change_at(ops, id, i));
                }
                if last_change_attaches(ops, id) {
                    let i = choose|i: int| last_change_at(ops, id, i);
                    assert(i != n);
                    assert(pre_o[i] == ops[i]);
                    assert forall|j: int| i < j < pre_o.len() implies !touches(#[trigger] pre_o[j], id) by {
                        assert(pre_o[j] == ops[j]);
                    }
                    assert(last_change_at(pre_o, id, i));
                }
            }
        }
    }
}

/// A relay that shut down holds no subscriber, so a later closure hands back
/// only subscribers attached since, each with the handle of its latest
/// attach: a subscriber told of the closure once is not told again unless it
/// attached anew.
pub proof fn lemma_closure_told_once<H>(
    states: Seq<Map<i32, H>>,
    ops: Seq<Membership<H>>,
    later: Seq<(i32, H)>,
)
    requires
        states.len() == ops.len() + 1,
        states[0] == Map::<i32, H>::empty(),
        forall|i: int| 0 <= i < ops.len() ==> follows(#[trigger] ops[i], states[i], states[i + 1]),
        pair_map(later) == states.last(),
    ensures
        forall|k: int| 0 <= k < later.len() ==> last_change_attaches(ops, #[trigger] later[k].0),
{
    lemma_membership_follows_changes(states, ops);
    assert forall|k: int| 0 <= k < later.len() implies last_change_attaches(ops, #[trigger] later[k].0) by {
        assert(ids_of(later)[k] == later[k].0);
        assert(pair_map(later).contains_key(later[k].0));
    }
}

/// A broadcast reaches every subscriber attached when it starts: the relay
/// lists each of them once for delivery. Afterwards the subscribers whose
/// handles reported closed are detached, and every other one stays attached
/// with its handle, whatever happened to the others.
pub proof fn lemma_broadcast_reaches_all<H>(
    before: Map<i32, H>,
    targets: Seq<i32>,
    closed: Seq<i32>,
    after: Map<i32, H>,
)
    requires
        targets.no_duplicates(),
        targets.to_set() == before.dom(),
        after == before.remove_keys(closed.to_set()),
    ensures
        forall|id: i32| #[trigger] before.contains_key(id) ==> targets.contains(id),
        forall|id: i32|
            #[trigger] targets.contains(id) && !closed.contains(id) ==> after.contains_key(id)
                && after[id] == before[id],
        forall|id: i32| #[trigger] closed.contains(id) ==> !after.contains_key(id),
{
    assert forall|id: i32| #[trigger] before.contains_key(id) implies targets.contains(id) by {
        assert(targets.to_set().contains(id));
    }
    assert forall|id: i32| #[trigger] targets.contains(id) && !closed.contains(id) implies after.contains_key(id)
        && after[id] == before[id] by {
        assert(targets.to_set().contains(id));
        assert(!closed.to_set().contains(id));
    }
    assert forall|id: i32| #[trigger] closed.contains(id) implies !after.contains_key(id) by {
        assert(closed.to_set().contains(id));
    }
}

} // verus!
