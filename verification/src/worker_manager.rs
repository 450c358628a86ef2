//! The registry of addressable workers.
//!
//! A worker is registered under an address, with a message handler, a poll
//! handler, or both. An address has at most one registration: registering an
//! address again replaces its handlers and keeps its place in the order.
//!
//! The manager is the router's handler for worker addresses: it takes the
//! first entry off the onward route of a message and hands the message to the
//! worker that entry names. A message that names no worker able to handle it
//! is counted and dropped; that does not stop the node. The manager is also a
//! poll target: it polls its workers in registration order.

use crate::error::Error;
use crate::message::{bytes_equal, Address, AddressView, Message, MessageView};
use crate::queue::MemQueue;
use crate::traits::{decide, Flow, Poll, PollHandle, ProcessMessage, ProcessMessageHandle};
use vstd::prelude::*;

verus! {

/// One worker: its address and what it can do.
pub struct WorkerRegistration {
    pub address: Vec<u8>,
    pub message_handler: Option<ProcessMessageHandle>,
    pub poll_handler: Option<PollHandle>,
}

/// The registry of workers, in registration order.
pub struct WorkerManager {
    workers: Vec<WorkerRegistration>,
    unknown_workers: usize,
    round: Vec<Option<Result<bool, Error>>>,
}

/// The worker a message is for: the identifier in the first entry of the
/// onward route, when that entry is a worker address.
pub open spec fn addressee(message: MessageView) -> Option<Seq<u8>> {
    if message.onward_route.len() > 0 {
        match message.onward_route[0] {
            AddressView::Worker(id) => Some(id),
            _ => None,
        }
    } else {
        None
    }
}

/// The message as it is handed on: its first onward entry is taken off.
pub open spec fn trimmed(message: MessageView) -> MessageView {
    MessageView {
        onward_route: message.onward_route.skip(1),
        return_route: message.return_route,
        message_type: message.message_type,
        message_body: message.message_body,
    }
}

/// A counter one higher, unless it is at its maximum already.
pub open spec fn counted(count: nat) -> nat {
    if count < usize::MAX {
        count + 1
    } else {
        count
    }
}

/// Whether a round of polls was ended by its last poll: that poll asked to
/// stop, or failed.
pub open spec fn halted(round: Seq<Option<Result<bool, Error>>>) -> bool {
    round.len() > 0 && round.last() is Some && round.last() != Some(Ok::<bool, Error>(true))
}

/// Whether `i` is the first place at which `id` stands in `addresses`.
pub open spec fn is_first(addresses: Seq<Seq<u8>>, id: Seq<u8>, i: int) -> bool {
    &&& 0 <= i < addresses.len()
    &&& addresses[i] == id
    &&& forall|j: int| 0 <= j < i ==> addresses[j] != id
}

impl WorkerManager {
    /// The registered addresses, in registration order.
    pub closed spec fn addresses(&self) -> Seq<Seq<u8>> {
        Seq::new(self.workers@.len(), |i: int| self.workers@[i].address@)
    }

    /// Whether the `i`-th registration has a message handler.
    pub open spec fn handles_messages(&self, i: int) -> bool {
        self.registration(i).message_handler is Some
    }

    /// Whether the `i`-th registration has a poll handler.
    pub open spec fn polls(&self, i: int) -> bool {
        self.registration(i).poll_handler is Some
    }

    /// The `i`-th registration: the address and the handlers it holds.
    pub closed spec fn registration(&self, i: int) -> WorkerRegistration {
        self.workers@[i]
    }

    /// How many messages were dropped because they named no worker able to handle them.
    pub closed spec fn unknown(&self) -> nat {
        self.unknown_workers as nat
    }

    /// What happened in the last round of polls: for each worker that the
    /// round came to, in registration order, the outcome of its poll, or
    /// `None` if the worker has no poll handler.
    pub closed spec fn last_round(&self) -> Seq<Option<Result<bool, Error>>> {
        self.round@
    }

    /// No address is registered twice.
    pub open spec fn wf(&self) -> bool {
        self.addresses().no_duplicates()
    }

    /// Whether `id` is registered.
    pub open spec fn registered(&self, id: Seq<u8>) -> bool {
        self.addresses().contains(id)
    }

    /// Whether a message reaches a handler: its first onward entry names a
    /// registered worker, and that worker handles messages.
    pub open spec fn delivers(&self, message: MessageView) -> bool {
        match addressee(message) {
            Some(id) => exists|i: int| #[trigger]
                is_first(self.addresses(), id, i) && self.handles_messages(i),
            None => false,
        }
    }

    /// Whether no worker has a poll handler.
    pub open spec fn idle(&self) -> bool {
        forall|i: int| 0 <= i < self.addresses().len() ==> !#[trigger] self.polls(i)
    }

    /// The same workers with the same capabilities.
    pub open spec fn same_registry(&self, other: &WorkerManager) -> bool {
        &&& self.addresses() == other.addresses()
        &&& forall|i: int|
            0 <= i < self.addresses().len() ==> self.handles_messages(i) == other.handles_messages(
                i,
            ) && self.polls(i) == other.polls(i)
    }

    pub fn new() -> (manager: WorkerManager)
        ensures
            manager.addresses() == Seq::<Seq<u8>>::empty(),
            manager.unknown() == 0,
            manager.last_round() == Seq::<Option<Result<bool, Error>>>::empty(),
            manager.wf(),
    {
        let manager = WorkerManager {
            workers: Vec::new(),
            unknown_workers: 0,
            round: Vec::new(),
        };
        manager
    }

    /// What happened in the last round of polls: for each worker that the
    /// round came to, in registration order, the outcome of its poll, or
    /// `None` if the worker has no poll handler.
    pub fn round(&self) -> (round: &Vec<Option<Result<bool, Error>>>)
        ensures
            round@ == self.last_round(),
    {
        &self.round
    }

    /// The number of registrations.
    pub fn len(&self) -> (n: usize)
        ensures
            n == self.addresses().len(),
    {
        self.workers.len()
    }

    /// How many messages were dropped because they named no worker able to handle them.
    pub fn unknown_worker_count(&self) -> (n: usize)
        ensures
            n == self.unknown(),
    {
        self.unknown_workers
    }

    /// Where `address` is registered: the first registration that has it.
    pub fn position(&self, address: &[u8]) -> (found: Option<usize>)
        ensures
            match found {
                Some(i) => is_first(self.addresses(), address@, i as int),
                None => !self.registered(address@),
            },
    {
        let mut i: usize = 0;
        while i < self.workers.len()
            invariant
                i <= self.workers.len(),
                forall|j: int| 0 <= j < i ==> self.addresses()[j] != address@,
            decreases self.workers.len() - i,
        {
            if bytes_equal(self.workers[i].address.as_slice(), address) {
                return Some(i);
            }
            i += 1;
        }
        None
    }

    /// Decides who gets a message, and what exactly they get: the worker
    /// that the first entry of the onward route names, if it is registered
    /// and handles messages, gets the message with that entry taken off.
    /// A message that names no such worker is for an unknown worker.
    pub fn hand_over(&self, message: Message) -> (handed: Result<(usize, Message), Error>)
        ensures
            handed is Ok == self.delivers(message@),
            handed is Ok ==> {
                &&& is_first(self.addresses(), addressee(message@)->Some_0, (handed->Ok_0).0 as int)
                &&& self.handles_messages((handed->Ok_0).0 as int)
                &&& (handed->Ok_0).1@ == trimmed(message@)
            },
            handed is Err ==> handed->Err_0 == Error::UnknownWorker,
    {
        let mut handed = message;
        let first = handed.onward_route.pop_front();
        let found = match &first {
            Some(Address::Worker(id)) => {
                self.position(id.as_slice())
            },
            _ => None,
        };
        assert(found matches Some(i) ==> addressee(message@) is Some && is_first(
            self.addresses(),
            addressee(message@)->Some_0,
            i as int,
        ));
        match found {
            Some(i) => {
                if self.workers[i].message_handler.is_some() {
                    Ok((i, handed))
                } else {
                    Err(Error::UnknownWorker)
                }
            },
            None => Err(Error::UnknownWorker),
        }
    }

    /// Whether `address` is registered.
    pub fn is_registered(&self, address: &[u8]) -> (yes: bool)
        ensures
            yes == self.registered(address@),
    {
        self.position(address).is_some()
    }

    /// Registers a worker under `address`. An address that is registered
    /// already keeps its place and gets the new handlers in place of the old
    /// ones; a new address goes to the end.
    pub fn register_worker(
        &mut self,
        address: Vec<u8>,
        message_handler: Option<ProcessMessageHandle>,
        poll_handler: Option<PollHandle>,
    ) -> (registered: Result<bool, Error>)
        ensures
            registered == Ok::<bool, Error>(true),
            final(self).addresses() == if old(self).registered(address@) {
                old(self).addresses()
            } else {
                old(self).addresses().push(address@)
            },
            forall|i: int|
                0 <= i < final(self).addresses().len() ==> if is_first(
                    final(self).addresses(),
                    address@,
                    i,
                ) {
                    final(self).handles_messages(i) == (message_handler is Some)
                        && final(self).polls(i)
                        == (poll_handler is Some)
                } else {
                    final(self).handles_messages(i) == old(self).handles_messages(i)
                        && final(self).polls(i)
                        == old(self).polls(i)
                },
            forall|i: int|
                0 <= i < final(self).addresses().len() ==> #[trigger] final(self).registration(i)
                    == if is_first(final(self).addresses(), address@, i) {
                    WorkerRegistration { address, message_handler, poll_handler }
                } else {
                    old(self).registration(i)
                },
            final(self).unknown() == old(self).unknown(),
            final(self).last_round() == old(self).last_round(),
            old(self).wf() ==> final(self).wf(),
    {
        match self.position(address.as_slice()) {
            Some(i) => {
                let entry = WorkerRegistration { address, message_handler, poll_handler };
                self.workers[i] = entry;
                assert(self.addresses() =~= old(self).addresses());
            },
            None => {
                self.workers.push(WorkerRegistration { address, message_handler, poll_handler });
            },
        }
        Ok(true)
    }

    /// Removes the registration of `address`, if there is one, and says whether there was.
    pub fn unregister_worker(&mut self, address: &[u8]) -> (removed: bool)
        ensures
            removed == old(self).registered(address@),
            !removed ==> final(self).same_registry(old(self)),
            removed ==> exists|i: int|
                {
                    &&& #[trigger] is_first(old(self).addresses(), address@, i)
                    &&& final(self).addresses() == old(self).addresses().remove(i)
                    &&& forall|k: int|
                        0 <= k < final(self).addresses().len()
                            ==> (#[trigger] final(self).handles_messages(k))
                                == old(self).handles_messages(
                            if k < i { k } else { k + 1 },
                        )
                    &&& forall|k: int|
                        0 <= k < final(self).addresses().len() ==> (#[trigger] final(self).polls(
                            k,
                        )) == old(self).polls(if k < i { k } else { k + 1 })
                    &&& forall|k: int|
                        0 <= k < final(self).addresses().len()
                            ==> (#[trigger] final(self).registration(k)) == old(self).registration(
                            if k < i { k } else { k + 1 },
                        )
                },
            final(self).last_round() == old(self).last_round(),
            final(self).unknown() == old(self).unknown(),
            old(self).wf() ==> final(self).wf() && !final(self).registered(address@),
    {
        match self.position(address) {
            Some(i) => {
                let _ = self.workers.remove(i);
                assert(self.addresses() =~= old(self).addresses().remove(i as int));
                true
            },
            None => false,
        }
    }
}

impl ProcessMessage for WorkerManager {
    /// Takes the first entry off the onward route and hands the message to
    /// the worker that entry names, returning what the worker's handler
    /// returns. When the entry names no registered worker with a message
    /// handler, the message is dropped and counted, the queue is left as it
    /// is, and the node keeps going.
    fn process_message(&mut self, message: Message, queue: &mut MemQueue<Message>) -> (outcome:
        Result<bool, Error>)
        ensures
            final(self).same_registry(old(self)),
            old(self).wf() ==> final(self).wf(),
            old(self).delivers(message@) ==> final(self).unknown() == old(self).unknown(),
            !old(self).delivers(message@) ==> {
                &&& outcome == Ok::<bool, Error>(true)
                &&& final(self).unknown() == counted(old(self).unknown())
                &&& *final(queue) == *old(queue)
            },
    {
        if let Ok((i, handed)) = self.hand_over(message) {
            if let Some(handler) = &mut self.workers[i].message_handler {
                let outcome = handler.process_message(handed, queue);
                assert(self.addresses() =~= old(self).addresses());
                return outcome;
            }
        }
        if self.unknown_workers < usize::MAX {
            self.unknown_workers += 1;
        }
        Ok(true)
    }
}

impl Poll for WorkerManager {
    /// Polls every worker that has a poll handler, once, in registration
    /// order. The first worker that asks to stop, or fails, ends the round:
    /// its outcome is returned and the workers after it are not polled. A
    /// round that nobody ends returns `Ok(true)`.
    ///
    /// The manager keeps what happened in the round until the next round:
    /// see [`WorkerManager::round`].
    fn poll(&mut self, queue: &mut MemQueue<Message>) -> (outcome: Result<bool, Error>)
        ensures
            final(self).same_registry(old(self)),
            final(self).unknown() == old(self).unknown(),
            old(self).wf() ==> final(self).wf(),
            old(self).idle() ==> outcome == Ok::<bool, Error>(true) && *final(queue) == *old(queue),
            final(self).last_round().len() <= old(self).addresses().len(),
            forall|i: int|
                0 <= i < final(self).last_round().len() ==> (#[trigger] final(self).last_round()[i]
                    is Some) == old(self).polls(i),
            forall|i: int|
                0 <= i < final(self).last_round().len() - 1
                    ==> (#[trigger] final(self).last_round()[i]) is None
                        || final(self).last_round()[i] == Some(
                    Ok::<bool, Error>(true),
                ),
            halted(final(self).last_round()) ==> Some(outcome) == final(self).last_round().last(),
            !halted(final(self).last_round()) ==> outcome == Ok::<bool, Error>(true)
                && final(self).last_round().len() == old(self).addresses().len(),
    {
        self.round = Vec::new();
        let mut i: usize = 0;
        while i < self.workers.len()
            invariant
                i <= self.workers.len(),
                self.same_registry(old(self)),
                self.unknown() == old(self).unknown(),
                old(self).idle() ==> *queue == *old(queue),
                self.round@.len() == i,
                forall|j: int| 0 <= j < i ==> (#[trigger] self.round@[j] is Some)
                    == old(self).polls(j),
                forall|j: int|
                    0 <= j < i ==> (#[trigger] self.round@[j]) is None || self.round@[j] == Some(
                        Ok::<bool, Error>(true),
                    ),
            decreases self.workers.len() - i,
        {
            let ghost before = *self;
            let polled = match &mut self.workers[i].poll_handler {
                Some(handler) => Some(handler.poll(queue)),
                None => None,
            };
            self.round.push(polled);
            assert(self.addresses() =~= before.addresses());
            assert(old(self).idle() ==> !old(self).polls(i as int));
            if let Some(outcome) = polled {
                match decide(outcome) {
                    Flow::Halt(outcome) => {
                        return outcome;
                    },
                    Flow::Continue => {},
                }
            }
            i += 1;
        }
        Ok(true)
    }
}

} // verus!
