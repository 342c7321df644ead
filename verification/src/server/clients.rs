//! The registry of connected browser clients and the reload broadcast.
//!
//! A client is known by the identifier of its connection. The registry maps
//! each live identifier to the handle through which a text message can be
//! pushed to that client. The caller keeps the registry behind one lock, so
//! that a broadcast never runs while an entry is added or removed.

use vstd::prelude::*;
use vstd::std_specs::iter::IteratorSpec;
use std::collections::HashMap;
use crate::text::{signed_decimal, signed_decimal_string};

verus! {

broadcast use vstd::std_specs::hash::group_hash_axioms;

/// A capability to push one text message to one connected client.
pub trait ClientHandle {
    /// Hands `text` to the client's connection. The answer says whether the
    /// connection took it; a closed connection refuses.
    fn push_text(&self, text: &str) -> bool;
}

/// What the websocket layer reports about a connection.
pub enum ClientEvent<H> {
    /// A client connected under this identifier.
    Connect(u64, H),
    /// The client of this identifier is gone.
    Disconnect(u64),
    /// The client of this identifier sent a message. Its content is of no
    /// interest to the server.
    Message(u64),
}

/// The registry after one event.
pub open spec fn apply_event<H>(clients: Map<u64, H>, event: ClientEvent<H>) -> Map<u64, H> {
    match event {
        ClientEvent::Connect(id, handle) => clients.insert(id, handle),
        ClientEvent::Disconnect(id) => clients.remove(id),
        ClientEvent::Message(_) => clients,
    }
}

/// The registry after a sequence of events.
pub open spec fn apply_events<H>(clients: Map<u64, H>, events: Seq<ClientEvent<H>>) -> Map<u64, H>
    decreases events.len(),
{
    if events.len() == 0 {
        clients
    } else {
        apply_event(apply_events(clients, events.drop_last()), events.last())
    }
}

/// Whether `events[i]` is a connect of `id`.
pub open spec fn connects<H>(events: Seq<ClientEvent<H>>, i: int, id: u64) -> bool {
    0 <= i < events.len() && events[i] is Connect && events[i]->Connect_0 == id
}

/// Whether `events[i]` is a disconnect of `id`.
pub open spec fn disconnects<H>(events: Seq<ClientEvent<H>>, i: int, id: u64) -> bool {
    0 <= i < events.len() && events[i] is Disconnect && events[i]->Disconnect_0 == id
}

/// Whether `id` has, in `events`, a connect that no disconnect of `id`
/// follows.
pub open spec fn live_after<H>(events: Seq<ClientEvent<H>>, id: u64) -> bool {
    exists|i: int|
        #[trigger] connects(events, i, id) && forall|j: int|
            i < j < events.len() ==> !#[trigger] disconnects(events, j, id)
}

/// The identifiers that are live after `events`.
pub open spec fn live_ids<H>(events: Seq<ClientEvent<H>>) -> Set<u64> {
    Set::new(|id: u64| live_after(events, id))
}

/// The text that tells a client to reload its page.
pub const RELOAD_MESSAGE: &'static str = "reload";

/// What a broadcast did.
pub struct Broadcast {
    /// The clients to which the message was pushed, each once, in the order
    /// in which they were served.
    pub targets: Vec<u64>,
    /// The text that was handed to each of them.
    pub text: String,
    /// What each push answered, in the order of the targets: whether the
    /// connection took the message.
    pub answers: Vec<bool>,
    /// How many of the targets took the message.
    pub accepted: usize,
}

/// How many of `answers` are `true`.
pub open spec fn count_true(answers: Seq<bool>) -> nat
    decreases answers.len(),
{
    if answers.len() == 0 {
        0
    } else if answers.last() {
        count_true(answers.drop_last()) + 1
    } else {
        count_true(answers.drop_last())
    }
}

/// No more answers are `true` than there are answers.
pub proof fn lemma_count_true_bound(answers: Seq<bool>)
    ensures
        count_true(answers) <= answers.len(),
    decreases answers.len(),
{
    if answers.len() > 0 {
        lemma_count_true_bound(answers.drop_last());
    }
}

/// The connected clients, by connection identifier.
pub struct ClientRegistry<H> {
    clients: HashMap<u64, H>,
}

impl<H> View for ClientRegistry<H> {
    type V = Map<u64, H>;

    closed spec fn view(&self) -> Map<u64, H> {
        self.clients@
    }
}

impl<H> ClientRegistry<H> {
    /// A registry without clients.
    pub fn new() -> (registry: Self)
        ensures
            registry@ == Map::<u64, H>::empty(),
    {
        ClientRegistry { clients: HashMap::new() }
    }

    /// Admits a client under `id`. A handle already stored under `id` is
    /// replaced: the last writer wins.
    pub fn connect(&mut self, id: u64, handle: H)
        ensures
            final(self)@ == old(self)@.insert(id, handle),
    {
        self.clients.insert(id, handle);
    }

    /// Removes the client of `id`. An unknown `id` changes nothing.
    pub fn disconnect(&mut self, id: u64) -> (removed: bool)
        ensures
            final(self)@ == old(self)@.remove(id),
            removed == old(self)@.contains_key(id),
    {
        self.clients.remove(&id).is_some()
    }

    /// Takes one event of the websocket layer.
    pub fn handle_event(&mut self, event: ClientEvent<H>)
        ensures
            final(self)@ == apply_event(old(self)@, event),
    {
        match event {
            ClientEvent::Connect(id, handle) => {
                self.connect(id, handle);
            },
            ClientEvent::Disconnect(id) => {
                self.disconnect(id);
            },
            ClientEvent::Message(_) => {},
        }
    }

    /// Takes a batch of events in order.
    pub fn handle_events(&mut self, events: Vec<ClientEvent<H>>)
        ensures
            final(self)@ == apply_events(old(self)@, events@),
    {
        let ghost all = events@;
        let mut events = events;
        let mut rest: Vec<ClientEvent<H>> = Vec::new();
        // Events are taken from the back, so the batch is turned round first.
        while events.len() > 0
            invariant
                events@ + rest@.reverse() == all,
            decreases events.len(),
        {
            let ghost before = events@;
            let ghost rest_before = rest@;
            let event = events.pop().unwrap();
            rest.push(event);
            assert(events@ + rest@.reverse() =~= before + rest_before.reverse());
        }
        assert(rest@.reverse() =~= all);
        let ghost mut done: Seq<ClientEvent<H>> = Seq::empty();
        while rest.len() > 0
            invariant
                done + rest@.reverse() == all,
                self@ == apply_events(old(self)@, done),
            decreases rest.len(),
        {
            let ghost rest_before = rest@;
            let event = rest.pop().unwrap();
            proof {
                let next = done.push(event);
                assert(next.drop_last() =~= done);
                assert(next + rest@.reverse() =~= done + rest_before.reverse());
                done = next;
            }
            self.handle_event(event);
        }
        assert(done =~= all);
    }

    /// The number of connected clients.
    pub fn len(&self) -> (n: usize)
        ensures
            n == self@.dom().len(),
    {
        self.clients.len()
    }

    /// Whether a client is connected under `id`.
    pub fn contains(&self, id: u64) -> (b: bool)
        ensures
            b == self@.contains_key(id),
    {
        self.clients.contains_key(&id)
    }

    /// The handle of the client of `id`.
    pub fn handle(&self, id: u64) -> (found: Option<&H>)
        ensures
            match found {
                Some(h) => self@.contains_key(id) && *h == self@[id],
                None => !self@.contains_key(id),
            },
    {
        self.clients.get(&id)
    }

    /// The identifiers of the connected clients: each once, in no
    /// particular order.
    pub fn ids(&self) -> (ids: Vec<u64>)
        ensures
            ids@.no_duplicates(),
            ids@.to_set() == self@.dom(),
            ids@.len() == self@.dom().len(),
    {
        let mut ids: Vec<u64> = Vec::new();
        let keys = self.clients.keys();
        let ghost all = keys.remaining();
        for id in it: keys
            invariant
                it.seq() == all,
                all.no_duplicates(),
                all.unref().to_set() == self@.dom(),
                all.len() == self@.dom().len(),
                ids@ == all.unref().take(it.index() as int),
        {
            ids.push(*id);
            assert(all.unref()[it.index() as int] == *id);
            assert(all.unref().take(it.index() + 1) =~= all.unref().take(it.index() as int).push(
                *id,
            ));
        }
        proof {
            assert(ids@ =~= all.unref());
            assert(ids@.no_duplicates()) by {
                assert forall|i: int, j: int|
                    0 <= i < ids@.len() && 0 <= j < ids@.len() && i != j implies ids@[i]
                    != ids@[j] by {
                    assert(all[i] != all[j]);
                    assert(all.unref()[i] == *all[i]);
                    assert(all.unref()[j] == *all[j]);
                }
            }
        }
        ids
    }
}

impl<H> ClientRegistry<H> {
    /// What a reload broadcast hands out, before anything is pushed: the
    /// clients that are told, each registered client once, and the text
    /// that each of them is told.
    pub fn reload_plan(&self) -> (plan: (Vec<u64>, &'static str))
        ensures
            plan.0@.no_duplicates(),
            plan.0@.to_set() == self@.dom(),
            plan.0@.len() == self@.dom().len(),
            plan.1@ == RELOAD_MESSAGE@,
    {
        (self.ids(), RELOAD_MESSAGE)
    }
}

impl<H: ClientHandle> ClientRegistry<H> {
    /// Carries out a plan: pushes `text` to the handle of each of `targets`,
    /// in their order, once for each. A client that refuses the message is
    /// passed over: the others are still served, and the registry stays as
    /// it is. A target that is not registered gets nothing, and its answer
    /// is `false`.
    pub fn deliver(&self, targets: Vec<u64>, text: &str) -> (done: Broadcast)
        ensures
            done.targets@ == targets@,
            done.text@ == text@,
            done.answers@.len() == targets@.len(),
            done.accepted == count_true(done.answers@),
            forall|i: int|
                0 <= i < targets@.len() && !self@.contains_key(targets@[i])
                    ==> !#[trigger] done.answers@[i],
    {
        let mut answers: Vec<bool> = Vec::new();
        let mut accepted: usize = 0;
        let mut i: usize = 0;
        while i < targets.len()
            invariant
                i <= targets.len(),
                answers@.len() == i,
                accepted == count_true(answers@),
                accepted <= i,
                forall|j: int|
                    0 <= j < i && !self@.contains_key(targets@[j]) ==> !#[trigger] answers@[j],
            decreases targets.len() - i,
        {
            let ghost before = answers@;
            let answer = match self.clients.get(&targets[i]) {
                Some(handle) => handle.push_text(text),
                None => false,
            };
            answers.push(answer);
            assert(answers@.drop_last() =~= before);
            if answer {
                accepted += 1;
            }
            i += 1;
        }
        Broadcast { targets, text: text.to_owned(), answers, accepted }
    }

    /// Pushes `text` to every connected client, once each.
    pub fn broadcast(&self, text: &str) -> (done: Broadcast)
        ensures
            done.targets@.no_duplicates(),
            done.targets@.to_set() == self@.dom(),
            done.targets@.len() == self@.dom().len(),
            done.text@ == text@,
            done.answers@.len() == done.targets@.len(),
            done.accepted == count_true(done.answers@),
            done.accepted <= done.targets@.len(),
    {
        let targets = self.ids();
        let done = self.deliver(targets, text);
        proof {
            lemma_count_true_bound(done.answers@);
        }
        done
    }

    /// Tells every connected client to reload: carries out the reload plan.
    pub fn broadcast_reload(&self) -> (done: Broadcast)
        ensures
            done.targets@.no_duplicates(),
            done.targets@.to_set() == self@.dom(),
            done.targets@.len() == self@.dom().len(),
            done.text@ == RELOAD_MESSAGE@,
            done.answers@.len() == done.targets@.len(),
            done.accepted == count_true(done.answers@),
            done.accepted <= done.targets@.len(),
    {
        let plan = self.reload_plan();
        let done = self.deliver(plan.0, plan.1);
        proof {
            lemma_count_true_bound(done.answers@);
        }
        done
    }
}

/// The handle that the websocket layer gives out for a connection.
#[verifier::external_type_specification]
#[verifier::external_body]
pub struct ExResponder(simple_websockets::Responder);

/// `simple_websockets::Responder::send` with a text message. The responder
/// puts the message in the queue of its connection and says whether the
/// queue still had a reader; it neither waits nor fails otherwise. Nothing
/// is claimed of the answer.
#[verifier::external_body]
fn responder_send_text(responder: &simple_websockets::Responder, text: &str) -> (accepted: bool) {
    responder.send(simple_websockets::Message::Text(text.to_string()))
}

impl ClientHandle for simple_websockets::Responder {
    fn push_text(&self, text: &str) -> bool {
        responder_send_text(self, text)
    }
}

/// The first message to a new client: the time at which the server was
/// started, in decimal. A page that hears another time than before knows
/// that the server itself came back, not only the site.
pub open spec fn greeting_text(started_at: i64) -> Seq<char> {
    signed_decimal(started_at as int)
}

/// The first message to a new client.
pub fn greeting(started_at: i64) -> (text: String)
    ensures
        text@ == greeting_text(started_at),
{
    signed_decimal_string(started_at)
}

impl<H: ClientHandle> ClientRegistry<H> {
    /// Greets a new client with the start time of the server, then admits
    /// it under `id`. Whether the greeting arrived is reported and changes
    /// nothing: the client is admitted either way.
    pub fn welcome(&mut self, id: u64, handle: H, started_at: i64) -> (greeted: bool)
        ensures
            final(self)@ == old(self)@.insert(id, handle),
    {
        let text = greeting(started_at);
        let greeted = handle.push_text(text.as_str());
        self.connect(id, handle);
        greeted
    }
}

/// Whether `id` is live after `events` follows from whether it was live
/// before the last event, and from that event.
proof fn lemma_live_after_last<H>(events: Seq<ClientEvent<H>>, id: u64)
    requires
        events.len() > 0,
    ensures
        live_after(events, id) == (if connects(events, events.len() - 1, id) {
            true
        } else if disconnects(events, events.len() - 1, id) {
            false
        } else {
            live_after(events.drop_last(), id)
        }),
{
    let init = events.drop_last();
    let last = events.len() - 1;
    if connects(events, last, id) {
        assert(connects(events, last, id) && forall|j: int|
            last < j < events.len() ==> !#[trigger] disconnects(events, j, id));
    } else if disconnects(events, last, id) {
        if live_after(events, id) {
            let i = choose|i: int|
                #[trigger] connects(events, i, id) && forall|j: int|
                    i < j < events.len() ==> !#[trigger] disconnects(events, j, id);
            assert(i < last);
            assert(disconnects(events, last, id));
        }
    } else {
        if live_after(events, id) {
            let i = choose|i: int|
                #[trigger] connects(events, i, id) && forall|j: int|
                    i < j < events.len() ==> !#[trigger] disconnects(events, j, id);
            assert(init[i] == events[i]);
            assert(connects(init, i, id));
            assert forall|j: int| i < j < init.len() implies !#[trigger] disconnects(
                init,
                j,
                id,
            ) by {
                assert(init[j] == events[j]);
                assert(!disconnects(events, j, id));
            }
        }
        if live_after(init, id) {
            let i = choose|i: int|
                #[trigger] connects(init, i, id) && forall|j: int|
                    i < j < init.len() ==> !#[trigger] disconnects(init, j, id);
            assert(init[i] == events[i]);
            assert(connects(events, i, id));
            assert forall|j: int| i < j < events.len() implies !#[trigger] disconnects(
                events,
                j,
                id,
            ) by {
                if j < last {
                    assert(init[j] == events[j]);
                    assert(!disconnects(init, j, id));
                }
            }
        }
    }
}

/// Registry consistency: whatever the order of connects, disconnects and
/// messages, the registry that started empty holds exactly the identifiers
/// with a connect that no disconnect of the same identifier follows, and as
/// many entries as there are such identifiers.
pub proof fn lemma_registry_holds_live_clients<H>(events: Seq<ClientEvent<H>>)
    ensures
        apply_events(Map::<u64, H>::empty(), events).dom() == live_ids(events),
        apply_events(Map::<u64, H>::empty(), events).dom().finite(),
        apply_events(Map::<u64, H>::empty(), events).dom().len() == live_ids(events).len(),
    decreases events.len(),
{
    let start = Map::<u64, H>::empty();
    let after = apply_events(start, events);
    if events.len() == 0 {
        assert forall|id: u64| !live_after(events, id) by {
            if live_after(events, id) {
                let i = choose|i: int|
                    #[trigger] connects(events, i, id) && forall|j: int|
                        i < j < events.len() ==> !#[trigger] disconnects(events, j, id);
            }
        }
        assert(after.dom() =~= live_ids(events));
    } else {
        let init = events.drop_last();
        let before = apply_events(start, init);
        lemma_registry_holds_live_clients::<H>(init);
        assert forall|id: u64| after.dom().contains(id) == live_after(events, id) by {
            lemma_live_after_last(events, id);
            assert(before.dom().contains(id) == live_after(init, id));
        }
        assert(after.dom() =~= live_ids(events));
    }
}

/// The handle stored for a live identifier is the one of its last connect.
pub proof fn lemma_last_writer_wins<H>(events: Seq<ClientEvent<H>>, i: int, id: u64)
    requires
        connects(events, i, id),
        forall|j: int| i < j < events.len() ==> !connects(events, j, id),
        forall|j: int| i < j < events.len() ==> !disconnects(events, j, id),
    ensures
        apply_events(Map::<u64, H>::empty(), events).contains_key(id),
        apply_events(Map::<u64, H>::empty(), events)[id] == events[i]->Connect_1,
    decreases events.len(),
{
    let last = events.len() - 1;
    if i < last {
        let init = events.drop_last();
        assert(init[i] == events[i]);
        assert forall|j: int| i < j < init.len() implies !connects(init, j, id) by {
            assert(init[j] == events[j]);
            assert(!connects(events, j, id));
        }
        assert forall|j: int| i < j < init.len() implies !disconnects(init, j, id) by {
            assert(init[j] == events[j]);
            assert(!disconnects(events, j, id));
        }
        lemma_last_writer_wins(init, i, id);
        assert(!connects(events, last, id));
        assert(!disconnects(events, last, id));
    }
}

} // verus!
