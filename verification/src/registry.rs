//! The registry of live connections and the handles that others push to.

use crate::message::{Message, MessageView};
use crate::session::{Event, EventView};
use std::collections::HashMap;
use std::collections::VecDeque;
use vstd::prelude::*;
use vstd::std_specs::iter::IteratorSpec;

verus! {

broadcast use vstd::std_specs::hash::group_hash_axioms;

/// Identity of one live connection.
pub type ConnectionId = u64;

/// How many messages a handle holds unless told otherwise.
pub const OUTBOX_CAPACITY: usize = 128;

/// What became of a message offered to a handle.
#[derive(Clone, Copy, Debug, PartialEq, Eq, Structural)]
pub enum Delivery {
    /// The message is queued.
    Delivered,
    /// The queue was full; the message is dropped.
    Full,
    /// The handle was closed; the message is dropped.
    Closed,
}

/// Why the registry refused a request.
#[derive(Clone, Copy, Debug, PartialEq, Eq, Structural)]
pub enum RegistryError {
    /// The identity is registered already.
    DuplicateConnection,
}

/// The outbound handle of one session: a bounded queue of messages that
/// other sessions pushed to it.
#[derive(Debug)]
pub struct Outbox {
    queue: VecDeque<Message>,
    capacity: usize,
    closed: bool,
}

/// Mathematical value of an [`Outbox`].
pub struct OutboxView {
    /// Messages not taken yet, oldest first.
    pub pending: Seq<MessageView>,
    pub capacity: nat,
    pub closed: bool,
}

/// Views of a sequence of messages.
pub open spec fn message_views(messages: Seq<Message>) -> Seq<MessageView> {
    messages.map_values(|message: Message| message@)
}

impl OutboxView {
    /// An open, empty handle.
    pub open spec fn new(capacity: nat) -> OutboxView {
        OutboxView { pending: Seq::empty(), capacity, closed: false }
    }

    /// What an offer to this handle ends in.
    pub open spec fn verdict(self) -> Delivery {
        if self.closed {
            Delivery::Closed
        } else if self.pending.len() >= self.capacity {
            Delivery::Full
        } else {
            Delivery::Delivered
        }
    }

    /// This handle after `message` was offered to it.
    pub open spec fn offer(self, message: MessageView) -> OutboxView {
        if self.verdict() == Delivery::Delivered {
            OutboxView { pending: self.pending.push(message), ..self }
        } else {
            self
        }
    }

    /// The oldest pending message, if there is one.
    pub open spec fn front(self) -> Option<MessageView> {
        if self.pending.len() > 0 {
            Some(self.pending[0])
        } else {
            None
        }
    }

    /// This handle after its oldest pending message was taken.
    pub open spec fn take(self) -> OutboxView {
        if self.pending.len() > 0 {
            OutboxView { pending: self.pending.drop_first(), ..self }
        } else {
            self
        }
    }

    /// This handle after it was closed. What is pending stays.
    pub open spec fn close(self) -> OutboxView {
        OutboxView { closed: true, ..self }
    }
}

/// A handle never holds more than its capacity: neither an offer nor a
/// take nor closing takes a handle within its bound beyond it.
pub proof fn lemma_outbox_stays_within_capacity(outbox: OutboxView, message: MessageView)
    requires
        outbox.pending.len() <= outbox.capacity,
    ensures
        outbox.offer(message).pending.len() <= outbox.capacity,
        outbox.take().pending.len() <= outbox.capacity,
        outbox.close().pending.len() <= outbox.capacity,
        OutboxView::new(outbox.capacity).pending.len() <= outbox.capacity,
{
}

/// A handle hands out what it accepted, in the order of acceptance: the
/// message offered to an open, empty handle with room is the next one taken.
pub proof fn lemma_outbox_is_first_in_first_out(outbox: OutboxView, message: MessageView)
    requires
        outbox.verdict() == Delivery::Delivered,
    ensures
        outbox.offer(message).pending == outbox.pending.push(message),
        outbox.pending.len() == 0 ==> outbox.offer(message).front() == Some(message),
        outbox.pending.len() > 0 ==> outbox.offer(message).front() == outbox.front(),
        outbox.pending.len() > 0 ==> outbox.offer(message).take() == outbox.take().offer(
            message,
        ),
{
    if outbox.pending.len() > 0 {
        assert(outbox.pending.push(message).drop_first() =~= outbox.pending.drop_first().push(
            message,
        ));
    }
}

impl View for Outbox {
    type V = OutboxView;

    closed spec fn view(&self) -> OutboxView {
        OutboxView {
            pending: message_views(self.queue@),
            capacity: self.capacity as nat,
            closed: self.closed,
        }
    }
}

impl Outbox {
    /// An open, empty handle that holds up to `capacity` messages.
    pub fn new(capacity: usize) -> (outbox: Outbox)
        ensures
            outbox@ == OutboxView::new(capacity as nat),
    {
        let outbox = Outbox { queue: VecDeque::new(), capacity, closed: false };
        assert(message_views(outbox.queue@) =~= Seq::<MessageView>::empty());
        outbox
    }

    /// Queues `message` unless the handle is closed or full. The caller is
    /// never held up.
    pub fn offer(&mut self, message: Message) -> (delivery: Delivery)
        ensures
            delivery == old(self)@.verdict(),
            final(self)@ == old(self)@.offer(message@),
    {
        if self.closed {
            Delivery::Closed
        } else if self.queue.len() >= self.capacity {
            Delivery::Full
        } else {
            assert(message_views(self.queue@.push(message)) =~= message_views(self.queue@).push(
                message@,
            ));
            self.queue.push_back(message);
            Delivery::Delivered
        }
    }

    /// Takes the oldest pending message.
    pub fn take(&mut self) -> (message: Option<Message>)
        ensures
            final(self)@ == old(self)@.take(),
            match message {
                Some(taken) => old(self)@.front() == Some(taken@),
                None => old(self)@.front() is None,
            },
    {
        let ghost before = self.queue@;
        let message = self.queue.pop_front();
        assert(message is Some ==> message_views(self.queue@) =~= message_views(
            before,
        ).drop_first());
        message
    }

    /// Closes the handle: from now on every offer is dropped.
    pub fn close(&mut self)
        ensures
            final(self)@ == old(self)@.close(),
    {
        self.closed = true;
    }

    pub fn len(&self) -> (len: usize)
        ensures
            len == self@.pending.len(),
    {
        self.queue.len()
    }

    pub fn capacity(&self) -> (capacity: usize)
        ensures
            capacity == self@.capacity,
    {
        self.capacity
    }

    pub fn is_closed(&self) -> (closed: bool)
        ensures
            closed == self@.closed,
    {
        self.closed
    }
}

/// The handles of all live connections, by identity.
#[derive(Debug)]
pub struct State {
    pub clients: HashMap<ConnectionId, Outbox>,
}

impl View for State {
    type V = Map<ConnectionId, OutboxView>;

    open spec fn view(&self) -> Map<ConnectionId, OutboxView> {
        self.clients@.map_values(|outbox: Outbox| outbox@)
    }
}

/// The registry after a request to register `handle` under `id`: a new
/// identity gets the handle, a registered one keeps what it has.
pub open spec fn after_register(
    clients: Map<ConnectionId, OutboxView>,
    id: ConnectionId,
    handle: OutboxView,
) -> Map<ConnectionId, OutboxView> {
    if clients.contains_key(id) {
        clients
    } else {
        clients.insert(id, handle)
    }
}

/// The registry after `sender` broadcast `message`: the message was offered
/// to every handle but the sender's own.
pub open spec fn after_broadcast(
    clients: Map<ConnectionId, OutboxView>,
    sender: ConnectionId,
    message: MessageView,
) -> Map<ConnectionId, OutboxView> {
    Map::new(
        |id: ConnectionId| clients.contains_key(id),
        |id: ConnectionId|
            if id == sender {
                clients[id]
            } else {
                clients[id].offer(message)
            },
    )
}

/// Whether `report` accounts for a broadcast by `sender` to `clients`: one
/// entry for every registered identity but the sender's, with what became of
/// the message there.
pub open spec fn reports_broadcast(
    report: Seq<(ConnectionId, Delivery)>,
    clients: Map<ConnectionId, OutboxView>,
    sender: ConnectionId,
) -> bool {
    &&& forall|i: int|
        0 <= i < report.len() ==> {
            &&& (#[trigger] report[i]).0 != sender
            &&& clients.contains_key(report[i].0)
            &&& report[i].1 == clients[report[i].0].verdict()
        }
    &&& forall|i: int, j: int|
        0 <= i < j < report.len() ==> (#[trigger] report[i]).0 != (#[trigger] report[j]).0
    &&& forall|id: ConnectionId|
        clients.contains_key(id) && id != sender ==> exists|i: int|
            0 <= i < report.len() && (#[trigger] report[i]).0 == id
}

/// What polling the handle of `id` yields: the oldest pending message, the
/// news that the handle is gone or closed and drained, or nothing yet.
pub open spec fn polled(clients: Map<ConnectionId, OutboxView>, id: ConnectionId) -> Option<
    EventView,
> {
    if !clients.contains_key(id) {
        Some(EventView::HandleClosed)
    } else if clients[id].pending.len() > 0 {
        Some(EventView::Pushed(clients[id].pending[0]))
    } else if clients[id].closed {
        Some(EventView::HandleClosed)
    } else {
        None
    }
}

/// The registry after the handle of `id` was polled.
pub open spec fn after_poll(clients: Map<ConnectionId, OutboxView>, id: ConnectionId) -> Map<
    ConnectionId,
    OutboxView,
> {
    if clients.contains_key(id) {
        clients.insert(id, clients[id].take())
    } else {
        clients
    }
}

/// One request to a registry.
pub enum Request {
    Register(ConnectionId, OutboxView),
    Unregister(ConnectionId),
}

/// What a series of requests has come to.
pub struct Census {
    /// The registry after the requests.
    pub clients: Map<ConnectionId, OutboxView>,
    /// Number of registrations that were accepted.
    pub registered: nat,
    /// Number of removals that found their identity registered.
    pub removed: nat,
}

/// The census of `requests`, made in order on an empty registry.
pub open spec fn census(requests: Seq<Request>) -> Census
    decreases requests.len(),
{
    if requests.len() == 0 {
        Census { clients: Map::empty(), registered: 0, removed: 0 }
    } else {
        let before = census(requests.drop_last());
        match requests.last() {
            Request::Register(id, handle) => Census {
                clients: after_register(before.clients, id, handle),
                registered: if before.clients.contains_key(id) {
                    before.registered
                } else {
                    before.registered + 1
                },
                removed: before.removed,
            },
            Request::Unregister(id) => Census {
                clients: before.clients.remove(id),
                registered: before.registered,
                removed: if before.clients.contains_key(id) {
                    before.removed + 1
                } else {
                    before.removed
                },
            },
        }
    }
}

/// Whatever is registered and removed, in whatever order: the number of
/// live entries is the number of accepted registrations less the number of
/// removals that found an entry.
pub proof fn lemma_live_entries_are_counted(requests: Seq<Request>)
    ensures
        census(requests).clients.dom().finite(),
        census(requests).clients.dom().len() == census(requests).registered - census(
            requests,
        ).removed,
    decreases requests.len(),
{
    if requests.len() > 0 {
        lemma_live_entries_are_counted(requests.drop_last());
    }
}

/// Removing is idempotent: an identity that is not registered is removed
/// without effect, and so is one that was removed just before.
pub proof fn lemma_unregister_is_idempotent(
    clients: Map<ConnectionId, OutboxView>,
    id: ConnectionId,
)
    ensures
        !clients.contains_key(id) ==> clients.remove(id) == clients,
        clients.remove(id).remove(id) == clients.remove(id),
        !clients.remove(id).contains_key(id),
{
    if !clients.contains_key(id) {
        assert(clients.remove(id) =~= clients);
    }
    assert(clients.remove(id).remove(id) =~= clients.remove(id));
}

/// A broadcast reaches all but its sender. The sender's own handle is left
/// as it was; every other registered handle was offered the message, so
/// each that is open and has room holds it last in its queue, whatever
/// state any other handle is in; and nobody joins or leaves the registry.
pub proof fn lemma_broadcast_reaches_all_but_sender(
    clients: Map<ConnectionId, OutboxView>,
    sender: ConnectionId,
    message: MessageView,
)
    ensures
        after_broadcast(clients, sender, message).dom() == clients.dom(),
        clients.contains_key(sender) ==> after_broadcast(clients, sender, message)[sender]
            == clients[sender],
        forall|id: ConnectionId|
            clients.contains_key(id) && id != sender ==> #[trigger] after_broadcast(
                clients,
                sender,
                message,
            )[id] == clients[id].offer(message),
        forall|id: ConnectionId|
            clients.contains_key(id) && id != sender && clients[id].verdict()
                == Delivery::Delivered ==> (#[trigger] after_broadcast(
                clients,
                sender,
                message,
            )[id]).pending == clients[id].pending.push(message),
        forall|id: ConnectionId|
            clients.contains_key(id) && id != sender && clients[id].verdict()
                != Delivery::Delivered ==> #[trigger] after_broadcast(clients, sender, message)[id]
                == clients[id],
{
    assert(after_broadcast(clients, sender, message).dom() =~= clients.dom());
}

/// Two broadcasts by different senders both arrive, once each, at a third
/// connection whose handle is open and has room for two: in the order in
/// which the broadcasts were made.
pub proof fn lemma_each_broadcast_arrives_once(
    clients: Map<ConnectionId, OutboxView>,
    first: ConnectionId,
    first_message: MessageView,
    second: ConnectionId,
    second_message: MessageView,
    receiver: ConnectionId,
)
    requires
        clients.contains_key(receiver),
        receiver != first,
        receiver != second,
        !clients[receiver].closed,
        clients[receiver].pending.len() + 2 <= clients[receiver].capacity,
    ensures
        after_broadcast(
            after_broadcast(clients, first, first_message),
            second,
            second_message,
        )[receiver].pending == clients[receiver].pending + seq![first_message, second_message],
{
    let once = after_broadcast(clients, first, first_message);
    let twice = after_broadcast(once, second, second_message);
    assert(once[receiver].pending == clients[receiver].pending.push(first_message));
    assert(twice[receiver].pending == once[receiver].pending.push(second_message));
    assert(twice[receiver].pending =~= clients[receiver].pending + seq![
        first_message,
        second_message,
    ]);
}

impl State {
    /// A registry without connections.
    pub fn new() -> (state: State)
        ensures
            state@ == Map::<ConnectionId, OutboxView>::empty(),
    {
        let state = State { clients: HashMap::new() };
        assert(state@ =~= Map::<ConnectionId, OutboxView>::empty());
        state
    }

    /// Number of live connections.
    pub fn len(&self) -> (len: usize)
        ensures
            len == self@.dom().len(),
    {
        assert(self@.dom() =~= self.clients@.dom());
        self.clients.len()
    }

    /// Whether `id` is registered.
    pub fn contains(&self, id: ConnectionId) -> (found: bool)
        ensures
            found == self@.contains_key(id),
    {
        self.clients.contains_key(&id)
    }

    /// Registers `handle` under `id`. An identity that is registered
    /// already is refused, and its handle stays as it is.
    pub fn register(&mut self, id: ConnectionId, handle: Outbox) -> (registered: Result<
        (),
        RegistryError,
    >)
        ensures
            final(self)@ == after_register(old(self)@, id, handle@),
            registered == if old(self)@.contains_key(id) {
                Err::<(), RegistryError>(RegistryError::DuplicateConnection)
            } else {
                Ok::<(), RegistryError>(())
            },
    {
        if self.clients.contains_key(&id) {
            Err(RegistryError::DuplicateConnection)
        } else {
            self.clients.insert(id, handle);
            assert(self@ =~= old(self)@.insert(id, handle@));
            Ok(())
        }
    }

    /// Removes `id`. Nothing happens if it is not registered.
    pub fn unregister(&mut self, id: ConnectionId)
        ensures
            final(self)@ == old(self)@.remove(id),
    {
        self.clients.remove(&id);
        assert(self@ =~= old(self)@.remove(id));
    }

    /// The registered identities, each once, in no particular order.
    pub fn ids(&self) -> (ids: Vec<ConnectionId>)
        ensures
            ids@.no_duplicates(),
            ids@.to_set() == self@.dom(),
    {
        let mut ids: Vec<ConnectionId> = Vec::new();
        let ghost keys = self.clients.keys().remaining().unref();
        for id in rest: self.clients.keys()
            invariant
                rest.seq().unref() == keys,
                ids@ == keys.take(rest.index()),
        {
            assert(keys.take(rest.index() + 1) =~= keys.take(rest.index()).push(*id));
            ids.push(*id);
        }
        assert(ids@ =~= keys);
        assert(self@.dom() =~= self.clients@.dom());
        ids
    }

    /// Offers `message` to the handle of every connection but `sender`.
    /// A handle that is full or closed drops its copy, and the others get
    /// theirs all the same. The report says, per recipient, what became of
    /// the message.
    pub fn broadcast(&mut self, sender: ConnectionId, message: Message) -> (report: Vec<
        (ConnectionId, Delivery),
    >)
        ensures
            final(self)@ == after_broadcast(old(self)@, sender, message@),
            reports_broadcast(report@, old(self)@, sender),
    {
        let ghost before = self@;
        let ids = self.ids();
        let mut report: Vec<(ConnectionId, Delivery)> = Vec::new();
        let mut at: usize = 0;
        while at < ids.len()
            invariant
                at <= ids.len(),
                ids@.no_duplicates(),
                ids@.to_set() == before.dom(),
                self@.dom() == before.dom(),
                forall|id: ConnectionId| #[trigger]
                    before.contains_key(id) ==> self@[id] == if id != sender && ids@.take(
                        at as int,
                    ).contains(id) {
                        before[id].offer(message@)
                    } else {
                        before[id]
                    },
                forall|i: int|
                    0 <= i < report.len() ==> {
                        &&& (#[trigger] report[i]).0 != sender
                        &&& ids@.take(at as int).contains(report[i].0)
                        &&& report[i].1 == before[report[i].0].verdict()
                    },
                forall|i: int, j: int|
                    0 <= i < j < report.len() ==> (#[trigger] report[i]).0 != (
                    #[trigger] report[j]).0,
                forall|k: int|
                    0 <= k < at && ids[k] != sender ==> exists|i: int|
                        0 <= i < report.len() && (#[trigger] report[i]).0 == ids[k],
            decreases ids.len() - at,
        {
            let id: ConnectionId = ids[at];
            let ghost seen = ids@.take(at as int);
            let ghost reported = report@;
            assert(ids@.take(at + 1) =~= seen.push(id));
            assert(!seen.contains(id));
            assert(ids@.contains(id));
            assert(before.contains_key(id));
            assert forall|other: ConnectionId| seen.contains(other) implies ids@.take(
                at + 1,
            ).contains(other) by {
                let k = choose|k: int| 0 <= k < seen.len() && seen[k] == other;
                assert(ids@.take(at + 1)[k] == other);
            }
            if id != sender {
                let ghost clients = self.clients@;
                match self.clients.remove(&id) {
                    Some(mut outbox) => {
                        let ghost handle = outbox@;
                        assert(handle == before[id]);
                        let delivery = outbox.offer(message.clone());
                        self.clients.insert(id, outbox);
                        report.push((id, delivery));
                        assert(self.clients@ =~= clients.insert(id, outbox));
                        assert(self@.dom() =~= before.dom());
                        assert(ids@.take(at + 1).contains(id)) by {
                            assert(ids@.take(at + 1)[at as int] == id);
                        }
                        assert forall|i: int, j: int| 0 <= i < j < report.len() implies (
                        #[trigger] report[i]).0 != (#[trigger] report[j]).0 by {
                            if j == reported.len() {
                                assert(report[i] == reported[i]);
                                assert(seen.contains(report[i].0));
                            } else {
                                assert(report[i] == reported[i]);
                                assert(report[j] == reported[j]);
                            }
                        }
                    },
                    None => {
                        assert(false);
                    },
                }
            }
            assert forall|k: int| 0 <= k < at + 1 && ids[k] != sender implies exists|i: int|
                0 <= i < report.len() && (#[trigger] report[i]).0 == ids[k] by {
                if k < at {
                    let i = choose|i: int|
                        0 <= i < reported.len() && (#[trigger] reported[i]).0 == ids[k];
                    assert(report[i] == reported[i]);
                } else {
                    assert(report[reported.len() as int].0 == id);
                }
            }
            assert forall|other: ConnectionId| #[trigger]
                before.contains_key(other) implies self@[other] == if other != sender
                && ids@.take(at + 1).contains(other) {
                before[other].offer(message@)
            } else {
                before[other]
            } by {
                if other != id {
                    if ids@.take(at + 1).contains(other) {
                        let later = ids@.take(at + 1);
                        let k = choose|k: int| 0 <= k < later.len() && later[k] == other;
                        assert(seen[k] == other);
                    }
                }
            }
            at = at + 1;
        }
        assert(ids@.take(at as int) =~= ids@);
        assert(self@ =~= after_broadcast(before, sender, message@)) by {
            assert forall|id: ConnectionId| before.contains_key(id) implies ids@.contains(
                id,
            ) by {
                assert(ids@.to_set().contains(id));
            }
        }
        assert forall|id: ConnectionId| before.contains_key(id) && id != sender implies exists|
            i: int,
        |
            0 <= i < report.len() && (#[trigger] report[i]).0 == id by {
            assert(ids@.to_set().contains(id));
            let k = choose|k: int| 0 <= k < ids.len() && ids[k] == id;
            assert(ids[k] != sender);
        }
        report
    }

    /// Takes the next event that the handle of `id` holds for its session:
    /// the oldest pending message, or the news that the handle is gone, or
    /// closed with nothing left in it. `None` means nothing has arrived.
    pub fn poll(&mut self, id: ConnectionId) -> (event: Option<Event>)
        ensures
            final(self)@ == after_poll(old(self)@, id),
            match event {
                Some(found) => polled(old(self)@, id) == Some(found@),
                None => polled(old(self)@, id) is None,
            },
    {
        let ghost clients = self.clients@;
        match self.clients.remove(&id) {
            None => {
                assert(self@ =~= old(self)@);
                Some(Event::HandleClosed)
            },
            Some(mut outbox) => {
                let closed = outbox.is_closed();
                let taken = outbox.take();
                self.clients.insert(id, outbox);
                assert(self.clients@ =~= clients.insert(id, outbox));
                assert(self@ =~= after_poll(old(self)@, id));
                match taken {
                    Some(message) => Some(Event::Pushed(message)),
                    None => if closed {
                        Some(Event::HandleClosed)
                    } else {
                        None
                    },
                }
            },
        }
    }

    /// Closes the handle of `id`, if it is registered: what is pending can
    /// still be polled, and nothing more is accepted.
    pub fn close(&mut self, id: ConnectionId)
        ensures
            final(self)@ == if old(self)@.contains_key(id) {
                old(self)@.insert(id, old(self)@[id].close())
            } else {
                old(self)@
            },
    {
        let ghost clients = self.clients@;
        match self.clients.remove(&id) {
            None => {
                assert(self@ =~= old(self)@);
            },
            Some(mut outbox) => {
                outbox.close();
                self.clients.insert(id, outbox);
                assert(self.clients@ =~= clients.insert(id, outbox));
                assert(self@ =~= old(self)@.insert(id, old(self)@[id].close()));
            },
        }
    }
}

} // verus!