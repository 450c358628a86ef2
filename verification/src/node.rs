//! The node: one queue, one router, the worker registry, and the poll
//! targets, driven tick by tick by a single thread.
//!
//! Each tick first drains the queue through the router, until the queue is
//! empty or a handler asks to stop, and then polls every poll target once:
//! the registered ones in registration order, and the worker registry last.
//! The first stop signal or error ends the tick at once. Between two ticks
//! the caller sleeps for [`TICK_INTERVAL_MS`].

use crate::error::Error;
use crate::message::{Address, AddressType, Message};
use crate::queue::{dequeued, enqueued, dropped_after, Enqueue, MemQueue};
use crate::router::{counted_by, same_handler, Handler, MessageRouter};
use crate::traits::{
    all_continue, decide, lemma_settle_push, lemma_stop_halts, settle, Flow, Poll, PollHandle,
    ProcessMessageHandle,
};
use crate::worker_manager::{is_first, WorkerManager, WorkerRegistration};
use vstd::prelude::*;

verus! {

/// The pause between two ticks, in milliseconds.
pub const TICK_INTERVAL_MS: u64 = 100;

/// What the loop that drives a node does after a tick.
#[derive(Clone, Copy, Debug, PartialEq, Eq)]
pub enum Step {
    /// Sleep for this many milliseconds, then run the next tick.
    Sleep(u64),
    /// Leave the loop with this result.
    Exit(Result<(), Error>),
}

/// What follows from the outcome of a tick: a tick that asks to keep going
/// is followed by the pause and the next tick; a stop signal ends the loop
/// in good order; an error ends it with that error.
pub open spec fn step_after(outcome: Result<bool, Error>) -> Step {
    match outcome {
        Ok(true) => Step::Sleep(TICK_INTERVAL_MS),
        Ok(false) => Step::Exit(Ok(())),
        Err(error) => Step::Exit(Err(error)),
    }
}

/// Decides what the loop that drives a node does after a tick.
pub fn next_step(outcome: Result<bool, Error>) -> (step: Step)
    ensures
        step == step_after(outcome),
{
    match outcome {
        Ok(true) => Step::Sleep(TICK_INTERVAL_MS),
        Ok(false) => Step::Exit(Ok(())),
        Err(error) => Step::Exit(Err(error)),
    }
}

/// A registered poll target: a poll handler, and the number it was
/// registered under. Targets are numbered in the order of registration,
/// from 0 on.
pub struct PollTarget {
    pub number: usize,
    pub handler: PollHandle,
}

impl PollTarget {
    /// The poll target itself, ready to be kept in a list.
    fn new(target: PollTarget) -> (kept: PollTarget)
        ensures
            kept == target,
    {
        target
    }
}

/// Who is served at one moment of a tick.
#[derive(Clone, Copy, Debug, PartialEq, Eq, Structural)]
pub enum Polled {
    /// The queue is drained through the router.
    Drain,
    /// The poll target that was registered under this number is polled.
    Target(usize),
    /// The worker registry is polled.
    Registry,
}

/// The order of a tick: first the drain, then the poll targets as they
/// stand in the list, then the worker registry.
pub open spec fn polling_order(numbers: Seq<usize>) -> Seq<Polled> {
    seq![Polled::Drain] + Seq::new(numbers.len(), |i: int| Polled::Target(numbers[i]))
        + seq![Polled::Registry]
}

/// Termination: when a poll target asks to stop, and everything polled
/// before it in the tick asked to keep going, the tick asks to stop and the
/// loop that drives the node ends in good order, whatever the poll targets
/// after it would have answered and whatever is still queued.
pub proof fn lemma_stop_ends_the_loop(outcomes: Seq<Result<bool, Error>>, k: int)
    requires
        0 <= k < outcomes.len(),
        outcomes[k] == Ok::<bool, Error>(false),
        forall|i: int| 0 <= i < k ==> outcomes[i] == Ok::<bool, Error>(true),
    ensures
        step_after(settle(outcomes)) == Step::Exit(Ok(())),
{
    lemma_stop_halts(outcomes, k);
}

pub struct Node {
    message_queue: MemQueue<Message>,
    message_router: MessageRouter,
    modules_to_poll: Vec<PollTarget>,
    outcomes: Vec<Result<bool, Error>>,
    served: Vec<Polled>,
    _role: String,
}

impl Node {
    /// The worker registry serves worker addresses.
    pub closed spec fn wf(&self) -> bool {
        self.message_router.worker matches Some(Handler::Workers(workers)) && workers.wf()
    }

    /// The worker registry.
    pub closed spec fn workers(&self) -> WorkerManager {
        match self.message_router.worker {
            Some(Handler::Workers(workers)) => workers,
            _ => arbitrary(),
        }
    }

    /// The queue of messages that wait to be dispatched.
    pub closed spec fn queue(&self) -> MemQueue<Message> {
        self.message_queue
    }

    /// The table of handlers.
    pub closed spec fn router(&self) -> MessageRouter {
        self.message_router
    }

    /// The number of registered poll targets, the worker registry not counted.
    pub open spec fn poll_targets(&self) -> nat {
        self.poll_list().len()
    }

    /// The registered poll targets, in the order they are polled in.
    pub closed spec fn poll_list(&self) -> Seq<PollTarget> {
        self.modules_to_poll@
    }

    /// The numbers of the registered poll targets, in the order they are polled in.
    pub open spec fn poll_numbers(&self) -> Seq<usize> {
        Seq::new(self.poll_list().len(), |i: int| self.poll_list()[i].number)
    }

    /// Who was served in the last tick, in order: one entry for each entry
    /// of [`Node::last_outcomes`].
    pub closed spec fn last_served(&self) -> Seq<Polled> {
        self.served@
    }

    /// The role the node was created with.
    pub closed spec fn role(&self) -> Seq<char> {
        self._role@
    }

    /// What happened in the last tick: the outcome of draining the queue,
    /// then the outcome of each poll target that was polled, in the order
    /// they were polled.
    pub closed spec fn last_outcomes(&self) -> Seq<Result<bool, Error>> {
        self.outcomes@
    }

    /// A node with an empty, unbounded queue, no workers and no poll targets.
    pub fn new(role: &str) -> (node: Result<Node, Error>)
        ensures
            node is Ok,
            node->Ok_0.wf(),
            node->Ok_0.role() == role@,
            node->Ok_0.queue()@.len() == 0,
            node->Ok_0.queue().limit() == 0,
            node->Ok_0.queue().dropped() == 0,
            node->Ok_0.workers().addresses().len() == 0,
            node->Ok_0.workers().unknown() == 0,
            node->Ok_0.poll_targets() == 0,
            node->Ok_0.last_outcomes().len() == 0,
            node->Ok_0.last_served().len() == 0,
            node->Ok_0.poll_list().len() == 0,
            forall|address_type: AddressType|
                node->Ok_0.router().handles(address_type) == (address_type == AddressType::Worker),
    {
        Ok(
            Node {
                message_queue: MemQueue::new(0),
                message_router: MessageRouter {
                    worker: Some(Handler::Workers(WorkerManager::new())),
                    tcp: None,
                    udp: None,
                    channel: None,
                },
                modules_to_poll: Vec::new(),
                outcomes: Vec::new(),
                served: Vec::new(),
                _role: role.to_string(),
            },
        )
    }

    /// Registers a worker with the worker registry.
    pub fn register_worker(
        &mut self,
        address: Vec<u8>,
        message_handler: Option<ProcessMessageHandle>,
        poll_handler: Option<PollHandle>,
    ) -> (registered: Result<bool, Error>)
        ensures
            old(self).wf() ==> final(self).wf(),
            old(self).wf() ==> registered == Ok::<bool, Error>(true),
            old(self).wf() ==> final(self).workers().addresses()
                == if old(self).workers().registered(address@) {
                old(self).workers().addresses()
            } else {
                old(self).workers().addresses().push(address@)
            },
            old(self).wf() ==> forall|i: int|
                0 <= i < final(self).workers().addresses().len() ==> if is_first(
                    final(self).workers().addresses(),
                    address@,
                    i,
                ) {
                    final(self).workers().handles_messages(i) == (message_handler is Some)
                        && final(self).workers().polls(i) == (poll_handler is Some)
                } else {
                    final(self).workers().handles_messages(i)
                        == old(self).workers().handles_messages(i)
                            && final(self).workers().polls(i) == old(self).workers().polls(i)
                },
            old(self).wf() ==> forall|i: int|
                0 <= i < final(self).workers().addresses().len()
                    ==> #[trigger] final(self).workers().registration(i) == if is_first(
                    final(self).workers().addresses(),
                    address@,
                    i,
                ) {
                    WorkerRegistration { address, message_handler, poll_handler }
                } else {
                    old(self).workers().registration(i)
                },
            old(self).wf() ==> final(self).workers().unknown() == old(self).workers().unknown(),
            final(self).queue() == old(self).queue(),
            final(self).poll_list() == old(self).poll_list(),
            forall|address_type: AddressType|
                address_type != AddressType::Worker ==> final(self).router().slot(address_type)
                    == old(self).router().slot(address_type),
    {
        match &mut self.message_router.worker {
            Some(Handler::Workers(workers)) => workers.register_worker(
                address,
                message_handler,
                poll_handler,
            ),
            _ => Err(Error::Routing),
        }
    }

    /// Removes the registration of a worker, if there is one, and says whether there was.
    pub fn unregister_worker(&mut self, address: &[u8]) -> (removed: bool)
        ensures
            old(self).wf() ==> {
                &&& final(self).wf()
                &&& removed == old(self).workers().registered(address@)
                &&& !final(self).workers().registered(address@)
                &&& !removed ==> final(self).workers().same_registry(&old(self).workers())
                &&& removed ==> exists|i: int|
                    {
                        &&& #[trigger] is_first(old(self).workers().addresses(), address@, i)
                        &&& final(self).workers().addresses()
                            == old(self).workers().addresses().remove(i)
                    }
                &&& final(self).workers().unknown() == old(self).workers().unknown()
            },
            final(self).queue() == old(self).queue(),
            final(self).poll_targets() == old(self).poll_targets(),
            forall|address_type: AddressType|
                address_type != AddressType::Worker ==> final(self).router().slot(address_type)
                    == old(self).router().slot(address_type),
    {
        match &mut self.message_router.worker {
            Some(Handler::Workers(workers)) => workers.unregister_worker(address),
            _ => false,
        }
    }

    /// Registers a transport: `message_handler` becomes the router's handler
    /// for `address_type`, in place of any handler registered before, and
    /// `poll_handler` becomes the last of the registered poll targets.
    /// Worker addresses stay with the worker registry: for them only the
    /// poll target is registered.
    pub fn register_transport(
        &mut self,
        address_type: AddressType,
        message_handler: ProcessMessageHandle,
        poll_handler: PollHandle,
    )
        ensures
            old(self).wf() ==> final(self).wf(),
            final(self).poll_list() == old(self).poll_list().push(
                (PollTarget { number: old(self).poll_targets() as usize, handler: poll_handler }),
            ),
            final(self).poll_numbers() == old(self).poll_numbers().push(
                old(self).poll_targets() as usize,
            ),
            final(self).queue() == old(self).queue(),
            address_type != AddressType::Worker ==> final(self).router().slot(address_type) == Some(
                Handler::Custom(message_handler),
            ),
            forall|other: AddressType|
                other != address_type || other == AddressType::Worker
                    ==> final(self).router().slot(other) == old(self).router().slot(other),
    {
        match address_type {
            AddressType::Worker => {},
            _ => {
                let _ = self.message_router.register_address_type_handler(
                    address_type,
                    Handler::Custom(message_handler),
                );
                assert(self.message_router.slot(AddressType::Worker)
                    == old(self).message_router.slot(AddressType::Worker));
            },
        }
        assert(self.modules_to_poll == old(self).modules_to_poll);
        let number = self.modules_to_poll.len();
        let target = PollTarget::new(PollTarget { number, handler: poll_handler });
        self.modules_to_poll.push(target);
        assert(self.poll_numbers() =~= old(self).poll_numbers().push(number));
    }

    /// The node's queue, for whoever wants to put messages on it.
    pub fn get_enqueue_ref(&mut self) -> (queue: &mut MemQueue<Message>)
        ensures
            *queue == old(self).queue(),
            final(self).queue() == *final(queue),
            final(self).router() == old(self).router(),
            final(self).poll_targets() == old(self).poll_targets(),
            final(self).role() == old(self).role(),
            old(self).wf() ==> final(self).wf(),
    {
        &mut self.message_queue
    }

    /// Secure channels are set up by their owners, who register them as
    /// workers: the node itself creates none. The call changes nothing.
    pub fn create_secure_channel(&mut self, route: Vec<Address>) -> (created: Result<bool, Error>)
        ensures
            created == Ok::<bool, Error>(true),
            *final(self) == *old(self),
    {
        Ok(true)
    }

    /// Puts a message on the node's queue.
    pub fn enqueue_message(&mut self, message: Message)
        ensures
            old(self).wf() ==> final(self).wf(),
            final(self).queue()@
                == enqueued(old(self).queue()@, old(self).queue().limit(), message),
            final(self).queue().dropped() == dropped_after(
                old(self).queue()@.len(),
                old(self).queue().limit(),
                old(self).queue().dropped(),
            ),
            final(self).queue().limit() == old(self).queue().limit(),
            final(self).router() == old(self).router(),
            final(self).poll_targets() == old(self).poll_targets(),
    {
        self.message_queue.enqueue(message);
    }

    /// What happened in the last tick: the outcome of draining the queue,
    /// then the outcome of each poll target that was polled, in the order
    /// they were polled, the worker registry last.
    pub fn outcomes(&self) -> (outcomes: &Vec<Result<bool, Error>>)
        ensures
            outcomes@ == self.last_outcomes(),
    {
        &self.outcomes
    }

    /// Who was served in the last tick, in order: one entry for each entry
    /// of [`Node::outcomes`].
    pub fn served(&self) -> (served: &Vec<Polled>)
        ensures
            served@ == self.last_served(),
    {
        &self.served
    }

    /// The number of messages that wait on the node's queue.
    pub fn queued(&self) -> (n: usize)
        ensures
            n == self.queue()@.len(),
    {
        self.message_queue.len()
    }

    /// How many messages the worker registry dropped because they named no
    /// worker able to handle them.
    pub fn unknown_worker_count(&self) -> (n: usize)
        ensures
            self.wf() ==> n == self.workers().unknown(),
    {
        match &self.message_router.worker {
            Some(Handler::Workers(workers)) => workers.unknown_worker_count(),
            _ => 0,
        }
    }

    /// One tick: drains the queue through the router, then polls every poll
    /// target once, the registered ones in registration order and the worker
    /// registry last. The first stop signal or error ends the tick at once
    /// and is returned: nothing is dispatched or polled after it. A tick in
    /// which nobody asks to stop returns `Ok(true)`.
    ///
    /// Messages that the worker registry drops by itself do not hold the
    /// drain up: each is counted there and the drain goes on.
    ///
    /// The node keeps who was served in the tick and with what outcome, in
    /// order, until the next tick: see [`Node::outcomes`] and [`Node::served`].
    pub fn tick(&mut self) -> (outcome: Result<bool, Error>)
        ensures
            old(self).wf() ==> final(self).wf(),
            old(self).wf() ==> final(self).workers().same_registry(&old(self).workers()),
            final(self).router().same_table(&old(self).router()),
            final(self).poll_numbers() == old(self).poll_numbers(),
            outcome == settle(final(self).last_outcomes()),
            1 <= final(self).last_outcomes().len() <= old(self).poll_targets() + 2,
            all_continue(final(self).last_outcomes().drop_last()),
            outcome == Ok::<bool, Error>(true) ==> final(self).last_outcomes().len()
                == old(self).poll_targets() + 2,
            final(self).last_served() == polling_order(old(self).poll_numbers()).take(
                final(self).last_outcomes().len() as int,
            ),
            old(self).wf() && old(self).queue()@.len() == 0 && old(self).poll_targets() == 0
                && old(self).workers().idle() ==> outcome == Ok::<bool, Error>(true)
                    && final(self).queue() == old(self).queue(),
            old(self).router().dropped_ahead(old(self).queue()@) < old(self).queue()@.len() ==> (
            old(self).router().routed(
                old(self).queue()@[old(self).router().dropped_ahead(old(self).queue()@) as int]@,
            ) matches Err(error) ==> {
                &&& outcome == Err::<bool, Error>(error)
                &&& final(self).last_outcomes() == seq![Err::<bool, Error>(error)]
                &&& final(self).poll_list() == old(self).poll_list()
                &&& final(self).router().after_drops(
                    &old(self).router(),
                    old(self).router().dropped_ahead(old(self).queue()@),
                )
                &&& final(self).queue()@ == old(self).queue()@.skip(
                    old(self).router().dropped_ahead(old(self).queue()@) as int + 1,
                )
                &&& final(self).queue().dropped() == old(self).queue().dropped()
                &&& final(self).queue().limit() == old(self).queue().limit()
            }),
            old(self).wf() && old(self).router().dropped_ahead(old(self).queue()@)
                == old(self).queue()@.len() && old(self).poll_targets() == 0
                    && old(self).workers().idle() ==> {
                &&& outcome == Ok::<bool, Error>(true)
                &&& final(self).queue()@.len() == 0
                &&& final(self).queue().dropped() == old(self).queue().dropped()
                &&& final(self).queue().limit() == old(self).queue().limit()
                &&& final(self).workers().unknown() == counted_by(
                    old(self).workers().unknown(),
                    old(self).queue()@.len(),
                )
                &&& forall|address_type: AddressType|
                    address_type != AddressType::Worker ==> final(self).router().slot(address_type)
                        == old(self).router().slot(address_type)
            },
    {
        self.outcomes = Vec::new();
        self.served = Vec::new();
        let ghost numbers = self.poll_numbers();
        let ghost order = polling_order(numbers);
        let ghost ahead = old(self).router().dropped_ahead(old(self).queue()@);
        let drained = self.message_router.poll(&mut self.message_queue);
        self.outcomes.push(drained);
        self.served.push(Polled::Drain);
        proof {
            assert(same_handler(
                self.message_router.slot(AddressType::Worker),
                old(self).message_router.slot(AddressType::Worker),
            ));
            lemma_settle_push(Seq::empty(), drained);
            assert(self.served@ =~= order.take(1));
            assert(counted_by(old(self).workers().unknown(), 0) == old(self).workers().unknown());
        }
        match decide(drained) {
            Flow::Halt(outcome) => {
                return outcome;
            },
            Flow::Continue => {},
        }
        let ghost drained_router = self.message_router;
        let ghost drained_queue = self.message_queue;
        let mut i: usize = 0;
        while i < self.modules_to_poll.len()
            invariant
                i <= self.modules_to_poll.len(),
                self.outcomes@.len() == i + 1,
                all_continue(self.outcomes@),
                numbers == old(self).poll_numbers(),
                self.poll_numbers() == numbers,
                order == polling_order(numbers),
                self.served@ == order.take(i + 1),
                self.message_router == drained_router,
                drained_router.same_table(&old(self).message_router),
                same_handler(drained_router.worker, old(self).message_router.worker),
                self.modules_to_poll.len() == old(self).modules_to_poll.len(),
                old(self).modules_to_poll.len() == 0 ==> self.message_queue == drained_queue,
                !(ahead < old(self).queue()@.len() && old(self).router().routed(
                    old(self).queue()@[ahead as int]@,
                ) is Err),
                ahead == old(self).router().dropped_ahead(old(self).queue()@),
            decreases self.modules_to_poll.len() - i,
        {
            let number = self.modules_to_poll[i].number;
            let polled = self.modules_to_poll[i].handler.poll(&mut self.message_queue);
            let ghost so_far = self.outcomes@;
            self.outcomes.push(polled);
            self.served.push(Polled::Target(number));
            proof {
                lemma_settle_push(so_far, polled);
                assert(self.poll_numbers() =~= numbers);
                assert(order[i + 1] == Polled::Target(number));
                assert(self.served@ =~= order.take(i + 2));
            }
            match decide(polled) {
                Flow::Halt(outcome) => {
                    return outcome;
                },
                Flow::Continue => {},
            }
            i += 1;
        }
        let polled = match &mut self.message_router.worker {
            Some(Handler::Workers(workers)) => workers.poll(&mut self.message_queue),
            _ => Ok(true),
        };
        let ghost so_far = self.outcomes@;
        self.outcomes.push(polled);
        self.served.push(Polled::Registry);
        proof {
            lemma_worker_slot(&self.message_router, &drained_router, &old(self).message_router);
            lemma_settle_push(so_far, polled);
            assert(self.served@ =~= order.take(i + 2));
        }
        polled
    }
}

/// When only the worker registry changed, and kept its workers, the table holds the same handlers.
proof fn lemma_worker_slot(now: &MessageRouter, between: &MessageRouter, before: &MessageRouter)
    requires
        between.same_table(before),
        same_handler(now.worker, between.worker),
        now.tcp == between.tcp,
        now.udp == between.udp,
        now.channel == between.channel,
    ensures
        now.same_table(before),
{
    assert forall|address_type: AddressType| #[trigger]
        same_handler(now.slot(address_type), before.slot(address_type)) by {
        assert(same_handler(between.slot(address_type), before.slot(address_type)));
    }
}

} // verus!
