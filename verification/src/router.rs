//! Dispatch of queued messages by the address type of their next hop.
//!
//! The router holds at most one handler for each address type; a later
//! registration replaces an earlier one. Polling the router drains the queue:
//! each message goes to the handler registered for the address type of the
//! first entry of its onward route. Handlers may put further messages on the
//! queue; those are dispatched within the same call.

use crate::error::Error;
use crate::message::{first_type, AddressType, Message, MessageView};
use crate::queue::{Dequeue, MemQueue, QueueMeta};
use crate::traits::{decide, Flow, ProcessMessage, ProcessMessageHandle};
use crate::worker_manager::{addressee, counted, is_first, WorkerManager};
use vstd::prelude::*;

verus! {

/// A handler of the router: the worker registry, or a handler of any other type.
pub enum Handler {
    Workers(WorkerManager),
    Custom(ProcessMessageHandle),
}

impl ProcessMessage for Handler {
    fn process_message(&mut self, message: Message, queue: &mut MemQueue<Message>) -> (outcome:
        Result<bool, Error>)
        ensures
            same_handler(Some(*final(self)), Some(*old(self))),
            *old(self) is Workers && !(*old(self))->Workers_0.delivers(message@) ==> {
                &&& outcome == Ok::<bool, Error>(true)
                &&& *final(queue) == *old(queue)
                &&& *final(self) is Workers
                &&& (*final(self))->Workers_0.unknown() == counted(
                    (*old(self))->Workers_0.unknown(),
                )
            },
    {
        match self {
            Handler::Workers(workers) => workers.process_message(message, queue),
            Handler::Custom(handler) => handler.process_message(message, queue),
        }
    }
}

/// Whether a slot of the router holds now what it held before: nothing, a
/// worker registry with the same workers, or a handler of another type.
pub open spec fn same_handler(now: Option<Handler>, before: Option<Handler>) -> bool {
    match (now, before) {
        (None, None) => true,
        (Some(Handler::Workers(now)), Some(Handler::Workers(before))) => now.same_registry(&before)
            && (before.wf() ==> now.wf()),
        (Some(Handler::Custom(_)), Some(Handler::Custom(_))) => true,
        _ => false,
    }
}

/// A counter after `n` more were counted; the counter stops at its maximum.
pub open spec fn counted_by(count: nat, n: nat) -> nat
    decreases n,
{
    if n == 0 {
        count
    } else {
        counted(counted_by(count, (n - 1) as nat))
    }
}

/// Where the messages that the worker registry drops by itself end: every
/// message before that place is dropped, and the one at that place is not.
pub proof fn lemma_dropped_ahead(router: &MessageRouter, messages: Seq<Message>, k: int)
    requires
        0 <= k < messages.len(),
    ensures
        router.dropped_ahead(messages) <= messages.len(),
        k < router.dropped_ahead(messages) ==> router.drops(messages[k]@),
        k == router.dropped_ahead(messages) ==> !router.drops(messages[k]@),
    decreases messages.len(),
{
    if router.drops(messages[0]@) {
        if messages.len() > 1 {
            if k > 0 {
                lemma_dropped_ahead(router, messages.skip(1), k - 1);
            } else {
                lemma_dropped_ahead(router, messages.skip(1), 0);
            }
        }
    }
}

/// A registry with the same workers drops the same messages.
pub proof fn lemma_same_drops(now: &MessageRouter, before: &MessageRouter, n: nat)
    requires
        now.after_drops(before, n),
    ensures
        forall|message: MessageView| #[trigger] now.drops(message) == before.drops(message),
        forall|message: MessageView| #[trigger] now.routed(message) == before.routed(message),
{
    assert forall|message: MessageView| #[trigger] now.drops(message) == before.drops(message) by {
        if n > 0 {
            let a = now.registry()->Some_0;
            let b = before.registry()->Some_0;
            assert(a.addresses() == b.addresses());
            if a.delivers(message) {
                let i = choose|i: int| #[trigger]
                    is_first(a.addresses(), addressee(message)->Some_0, i) && a.handles_messages(i);
                assert(is_first(b.addresses(), addressee(message)->Some_0, i)
                    && b.handles_messages(i));
            }
            if b.delivers(message) {
                let i = choose|i: int| #[trigger]
                    is_first(b.addresses(), addressee(message)->Some_0, i) && b.handles_messages(i);
                assert(is_first(a.addresses(), addressee(message)->Some_0, i)
                    && a.handles_messages(i));
            }
        }
    }
}

/// One more message dropped by the worker registry itself, after `n` were.
pub proof fn lemma_after_drops_step(
    now: &MessageRouter,
    between: &MessageRouter,
    before: &MessageRouter,
    n: nat,
)
    requires
        now.after_drops(between, 1),
        between.after_drops(before, n),
    ensures
        now.after_drops(before, n + 1),
{
    let count = before.registry()->Some_0.unknown();
    assert(counted_by(count, 0) == count);
    assert(counted_by(between.registry()->Some_0.unknown(), 0)
        == between.registry()->Some_0.unknown());
    assert(counted_by(between.registry()->Some_0.unknown(), 1) == counted(
        between.registry()->Some_0.unknown(),
    ));
    assert(counted_by(count, n + 1) == counted(counted_by(count, n)));
}

/// Holding the same handlers carries over from one moment to the next.
pub proof fn lemma_same_table_transitive(
    now: &MessageRouter,
    between: &MessageRouter,
    before: &MessageRouter,
)
    requires
        now.same_table(between),
        between.same_table(before),
    ensures
        now.same_table(before),
{
    assert forall|address_type: AddressType| #[trigger]
        same_handler(now.slot(address_type), before.slot(address_type)) by {
        assert(same_handler(now.slot(address_type), between.slot(address_type)));
        assert(same_handler(between.slot(address_type), before.slot(address_type)));
    }
}

/// Routing dispatch: a message whose next hop has a given address type
/// goes to the handler registered for that type and to no other; when no
/// handler is registered for that type, the message cannot be routed.
pub proof fn lemma_routing_dispatch(
    router: MessageRouter,
    message: MessageView,
    address_type: AddressType,
)
    requires
        first_type(message.onward_route) == Some(address_type),
    ensures
        router.handles(address_type) ==> router.routed(message) == Ok::<AddressType, Error>(
            address_type,
        ),
        !router.handles(address_type) ==> router.routed(message) == Err::<AddressType, Error>(
            Error::Routing,
        ),
        forall|other: AddressType|
            router.routed(message) == Ok::<AddressType, Error>(other) ==> other == address_type,
{
}

/// The table of handlers, one slot for each address type.
pub struct MessageRouter {
    pub worker: Option<Handler>,
    pub tcp: Option<Handler>,
    pub udp: Option<Handler>,
    pub channel: Option<Handler>,
}

impl MessageRouter {
    /// The handler registered for `address_type`, if any.
    pub open spec fn slot(&self, address_type: AddressType) -> Option<Handler> {
        match address_type {
            AddressType::Worker => self.worker,
            AddressType::Tcp => self.tcp,
            AddressType::Udp => self.udp,
            AddressType::Channel => self.channel,
        }
    }

    /// Whether a handler is registered for `address_type`.
    pub open spec fn handles(&self, address_type: AddressType) -> bool {
        self.slot(address_type) is Some
    }

    /// Where a message goes: to the handler registered for the address type
    /// of the first entry of its onward route. A message without an onward
    /// route is malformed; one for whose address type no handler is
    /// registered cannot be routed.
    pub open spec fn routed(&self, message: MessageView) -> Result<AddressType, Error> {
        match first_type(message.onward_route) {
            None => Err(Error::Configuration),
            Some(address_type) => if self.handles(address_type) {
                Ok(address_type)
            } else {
                Err(Error::Routing)
            },
        }
    }

    /// The worker registry, when it is what serves worker addresses.
    pub open spec fn registry(&self) -> Option<WorkerManager> {
        match self.worker {
            Some(Handler::Workers(workers)) => Some(workers),
            _ => None,
        }
    }

    /// Whether a message is one that the worker registry drops by itself:
    /// its next hop is a worker address, the worker registry serves those,
    /// and the address names no registered worker that handles messages.
    /// Such a message is counted and dropped, and the router goes on.
    pub open spec fn drops(&self, message: MessageView) -> bool {
        &&& first_type(message.onward_route) == Some(AddressType::Worker)
        &&& self.registry() is Some
        &&& !self.registry()->Some_0.delivers(message)
    }

    /// How many messages at the head of a queue the worker registry drops by itself.
    pub open spec fn dropped_ahead(&self, messages: Seq<Message>) -> nat
        decreases messages.len(),
    {
        if messages.len() > 0 && self.drops(messages[0]@) {
            1 + self.dropped_ahead(messages.skip(1))
        } else {
            0
        }
    }

    /// Whether the router is what `before` is after the worker registry
    /// dropped `n` messages by itself: the registry has the same workers and
    /// counted each message, and every other handler is untouched.
    pub open spec fn after_drops(&self, before: &MessageRouter, n: nat) -> bool {
        &&& self.tcp == before.tcp
        &&& self.udp == before.udp
        &&& self.channel == before.channel
        &&& if n == 0 {
            self.worker == before.worker
        } else {
            &&& self.registry() is Some
            &&& before.registry() is Some
            &&& self.registry()->Some_0.same_registry(&before.registry()->Some_0)
            &&& before.registry()->Some_0.wf() ==> self.registry()->Some_0.wf()
            &&& self.registry()->Some_0.unknown() == counted_by(
                before.registry()->Some_0.unknown(),
                n,
            )
        }
    }

    /// Whether every slot holds now what it held in `before`.
    pub open spec fn same_table(&self, before: &MessageRouter) -> bool {
        forall|address_type: AddressType| #[trigger]
            same_handler(self.slot(address_type), before.slot(address_type))
    }

    /// A router without handlers.
    pub fn new() -> (router: Result<MessageRouter, Error>)
        ensures
            router is Ok,
            forall|address_type: AddressType| !router->Ok_0.handles(address_type),
    {
        Ok(MessageRouter { worker: None, tcp: None, udp: None, channel: None })
    }

    /// Registers `handler` for `address_type`, in place of any handler registered before.
    pub fn register_address_type_handler(
        &mut self,
        address_type: AddressType,
        handler: Handler,
    ) -> (registered: Result<bool, Error>)
        ensures
            registered == Ok::<bool, Error>(true),
            final(self).slot(address_type) == Some(handler),
            forall|other: AddressType|
                other != address_type ==> final(self).slot(other) == old(self).slot(other),
    {
        match address_type {
            AddressType::Worker => {
                self.worker = Some(handler);
            },
            AddressType::Tcp => {
                self.tcp = Some(handler);
            },
            AddressType::Udp => {
                self.udp = Some(handler);
            },
            AddressType::Channel => {
                self.channel = Some(handler);
            },
        }
        Ok(true)
    }

    /// Whether a handler is registered for `address_type`.
    pub fn has_handler(&self, address_type: AddressType) -> (yes: bool)
        ensures
            yes == self.handles(address_type),
    {
        match address_type {
            AddressType::Worker => self.worker.is_some(),
            AddressType::Tcp => self.tcp.is_some(),
            AddressType::Udp => self.udp.is_some(),
            AddressType::Channel => self.channel.is_some(),
        }
    }

    /// Decides where `message` goes.
    pub fn route(&self, message: &Message) -> (target: Result<AddressType, Error>)
        ensures
            target == self.routed(message@),
    {
        match message.next_hop_type() {
            None => Err(Error::Configuration),
            Some(address_type) => if self.has_handler(address_type) {
                Ok(address_type)
            } else {
                Err(Error::Routing)
            },
        }
    }

    /// Hands `message` to the handler that [`MessageRouter::route`] picks and
    /// returns what that handler returns. A message that cannot be routed is
    /// dropped: the error is returned, and neither the router nor the queue
    /// changes. A message that the worker registry drops by itself is
    /// counted there, and the router goes on.
    pub fn dispatch(&mut self, message: Message, queue: &mut MemQueue<Message>) -> (outcome: Result<
        bool,
        Error,
    >)
        ensures
            final(self).same_table(old(self)),
            old(self).routed(message@) matches Err(error) ==> outcome == Err::<bool, Error>(error)
                && *final(self) == *old(self) && *final(queue) == *old(queue),
            old(self).routed(message@) matches Ok(address_type) ==> forall|other: AddressType|
                other != address_type ==> final(self).slot(other) == old(self).slot(other),
            old(self).drops(message@) ==> outcome == Ok::<bool, Error>(true) && *final(queue)
                == *old(queue) && final(self).after_drops(old(self), 1),
    {
        let address_type = match self.route(&message) {
            Ok(address_type) => address_type,
            Err(error) => {
                return Err(error);
            },
        };
        let slot = match address_type {
            AddressType::Worker => &mut self.worker,
            AddressType::Tcp => &mut self.tcp,
            AddressType::Udp => &mut self.udp,
            AddressType::Channel => &mut self.channel,
        };
        let outcome = match slot {
            Some(handler) => handler.process_message(message, queue),
            None => Err(Error::Routing),
        };
        proof {
            if old(self).drops(message@) {
                let count = old(self).registry()->Some_0.unknown();
                assert(counted_by(count, 0) == count);
                assert(counted_by(count, 1) == counted(count));
            }
        }
        outcome
    }

    /// Drains the queue: takes one message after the other off `queue` and
    /// dispatches it, until the queue is empty (`Ok(true)`), a handler asks to
    /// stop (`Ok(false)`), or a message cannot be routed or a handler fails
    /// (the error). Nothing is dispatched after a stop or an error, so the
    /// queue may then still hold messages.
    ///
    /// Messages that the worker registry drops by itself do not hold the
    /// drain up: each is counted there and the drain goes on with the next.
    ///
    /// One call dispatches at most `u64::MAX` messages; if the queue still
    /// holds messages then, it gives up with a routing error.
    pub fn poll(&mut self, queue: &mut MemQueue<Message>) -> (outcome: Result<bool, Error>)
        ensures
            final(self).same_table(old(self)),
            outcome == Ok::<bool, Error>(true) ==> final(queue)@.len() == 0,
            old(queue)@.len() == 0 ==> *final(self) == *old(self) && *final(queue) == *old(queue),
            old(self).dropped_ahead(old(queue)@) == old(queue)@.len() ==> {
                &&& outcome == Ok::<bool, Error>(true)
                &&& final(queue)@.len() == 0
                &&& final(queue).dropped() == old(queue).dropped()
                &&& final(queue).limit() == old(queue).limit()
                &&& final(self).after_drops(old(self), old(queue)@.len())
            },
            old(self).dropped_ahead(old(queue)@) < old(queue)@.len() ==> (old(self).routed(
                old(queue)@[old(self).dropped_ahead(old(queue)@) as int]@,
            ) matches Err(error) ==> {
                &&& outcome == Err::<bool, Error>(error)
                &&& final(queue)@ == old(queue)@.skip(
                    old(self).dropped_ahead(old(queue)@) as int + 1,
                )
                &&& final(queue).dropped() == old(queue).dropped()
                &&& final(queue).limit() == old(queue).limit()
                &&& final(self).after_drops(old(self), old(self).dropped_ahead(old(queue)@))
            }),
    {
        if queue.len() == 0 {
            return Ok(true);
        }
        let ghost ahead = old(self).dropped_ahead(old(queue)@);
        let ghost mut pure = true;
        let mut dispatched: u64 = 0;
        proof {
            if old(queue)@.len() > 0 {
                lemma_dropped_ahead(old(self), old(queue)@, 0);
            }
            assert(old(queue)@.skip(0) =~= old(queue)@);
        }
        while dispatched < u64::MAX
            invariant
                self.same_table(old(self)),
                dispatched == 0 ==> *self == *old(self) && *queue == *old(queue),
                ahead == old(self).dropped_ahead(old(queue)@),
                ahead <= old(queue)@.len() <= usize::MAX,
                pure ==> {
                    &&& dispatched <= ahead
                    &&& queue@ == old(queue)@.skip(dispatched as int)
                    &&& queue.dropped() == old(queue).dropped()
                    &&& queue.limit() == old(queue).limit()
                    &&& self.after_drops(old(self), dispatched as nat)
                },
                !pure ==> ahead < old(queue)@.len() && old(self).routed(
                    old(queue)@[ahead as int]@,
                ) is Ok,
            decreases u64::MAX - dispatched,
        {
            let ghost before = *self;
            let message = match queue.dequeue() {
                Some(message) => message,
                None => {
                    return Ok(true);
                },
            };
            proof {
                if pure {
                    lemma_same_drops(self, old(self), dispatched as nat);
                    lemma_dropped_ahead(old(self), old(queue)@, dispatched as int);
                    assert(message == old(queue)@[dispatched as int]);
                    assert(old(queue)@.skip(dispatched as int).skip(1) =~= old(queue)@.skip(
                        dispatched + 1,
                    ));
                }
            }
            let outcome = self.dispatch(message, queue);
            proof {
                lemma_same_table_transitive(self, &before, old(self));
                if pure {
                    if dispatched < ahead {
                        lemma_after_drops_step(self, &before, old(self), dispatched as nat);
                    } else if before.routed(message@) is Ok {
                        pure = false;
                    }
                }
            }
            match decide(outcome) {
                Flow::Halt(outcome) => {
                    return outcome;
                },
                Flow::Continue => {},
            }
            dispatched += 1;
        }
        if queue.has_messages() {
            Err(Error::Routing)
        } else {
            Ok(true)
        }
    }
}

} // verus!
