//! Bounded first-in first-out buffers.
//!
//! A [`MemQueue`] keeps its items in arrival order. It is created with a
//! capacity; a capacity of 0 means the queue is unbounded. When a bounded
//! queue is full, the incoming item is discarded and a drop counter is
//! incremented; nothing already stored is ever evicted.

use std::collections::VecDeque;
use vstd::prelude::*;

verus! {

/// The appending half of a queue.
pub trait Enqueue<T> {
    fn enqueue(&mut self, message: T);
}

/// The removing half of a queue.
pub trait Dequeue<T> {
    fn dequeue(&mut self) -> Option<T>;
}

pub trait QueueMeta {
    /// Returns true if the underlying queue has messages.
    fn has_messages(&self) -> bool;
}

pub trait Queue<T>: Enqueue<T> + Dequeue<T> + QueueMeta {

}

/// Whether a queue that holds `len` items and was created with `limit` accepts one more.
pub open spec fn has_room(len: nat, limit: nat) -> bool {
    limit == 0 || len < limit
}

/// The contents of a queue after `message` is offered to it.
pub open spec fn enqueued<T>(items: Seq<T>, limit: nat, message: T) -> Seq<T> {
    if has_room(items.len(), limit) {
        items.push(message)
    } else {
        items
    }
}

/// The drop counter after one more item is offered. The counter stops at `usize::MAX`.
pub open spec fn dropped_after(len: nat, limit: nat, dropped: nat) -> nat {
    if has_room(len, limit) || dropped >= usize::MAX {
        dropped
    } else {
        dropped + 1
    }
}

/// The contents of a queue after every item of `messages` is offered in order.
pub open spec fn enqueued_all<T>(items: Seq<T>, limit: nat, messages: Seq<T>) -> Seq<T>
    decreases messages.len(),
{
    if messages.len() == 0 {
        items
    } else {
        enqueued_all(enqueued(items, limit, messages[0]), limit, messages.skip(1))
    }
}

/// The drop counter after every item of `messages` is offered in order.
pub open spec fn dropped_after_all<T>(
    items: Seq<T>,
    limit: nat,
    dropped: nat,
    messages: Seq<T>,
) -> nat
    decreases messages.len(),
{
    if messages.len() == 0 {
        dropped
    } else {
        dropped_after_all(
            enqueued(items, limit, messages[0]),
            limit,
            dropped_after(items.len(), limit, dropped),
            messages.skip(1),
        )
    }
}

/// What a removal returns: the oldest item, if there is one.
pub open spec fn front<T>(items: Seq<T>) -> Option<T> {
    if items.len() > 0 {
        Some(items[0])
    } else {
        None
    }
}

/// The contents of a queue after one removal.
pub open spec fn dequeued<T>(items: Seq<T>) -> Seq<T> {
    if items.len() > 0 {
        items.skip(1)
    } else {
        items
    }
}

/// The contents of a queue after `n` removals.
pub open spec fn dequeued_n<T>(items: Seq<T>, n: nat) -> Seq<T>
    decreases n,
{
    if n == 0 {
        items
    } else {
        dequeued_n(dequeued(items), (n - 1) as nat)
    }
}

/// An in-memory [`Queue`] which stores its items in a [`VecDeque`]. At most
/// `message_limit` items will be stored. A `message_limit` of 0 disables the limit.
pub struct MemQueue<T> {
    messages: VecDeque<T>,
    message_limit: usize,
    dropped_messages: usize,
}

impl<T> View for MemQueue<T> {
    type V = Seq<T>;

    /// The stored items, oldest first.
    closed spec fn view(&self) -> Seq<T> {
        self.messages@
    }
}

impl<T> MemQueue<T> {
    #[verifier::type_invariant]
    spec fn within_limit(self) -> bool {
        self.message_limit == 0 || self.messages@.len() <= self.message_limit
    }

    /// The capacity the queue was created with; 0 means unbounded.
    pub closed spec fn limit(&self) -> nat {
        self.message_limit as nat
    }

    /// How many items were discarded because the queue was full.
    pub closed spec fn dropped(&self) -> nat {
        self.dropped_messages as nat
    }

    pub fn new(message_limit: usize) -> (queue: MemQueue<T>)
        ensures
            queue@ == Seq::<T>::empty(),
            queue.limit() == message_limit,
            queue.dropped() == 0,
    {
        MemQueue { messages: VecDeque::new(), dropped_messages: 0, message_limit }
    }

    pub fn len(&self) -> (n: usize)
        ensures
            n == self@.len(),
            self.limit() > 0 ==> n <= self.limit(),
    {
        proof {
            use_type_invariant(self);
        }
        self.messages.len()
    }

    /// The capacity the queue was created with; 0 means unbounded.
    pub fn message_limit(&self) -> (n: usize)
        ensures
            n == self.limit(),
    {
        self.message_limit
    }

    /// How many items were discarded because the queue was full.
    pub fn dropped_messages(&self) -> (n: usize)
        ensures
            n == self.dropped(),
    {
        self.dropped_messages
    }
}

impl<T> Enqueue<T> for MemQueue<T> {
    /// Appends `message` if the queue has room; otherwise discards it and counts the drop.
    fn enqueue(&mut self, message: T)
        ensures
            final(self)@ == enqueued(old(self)@, old(self).limit(), message),
            final(self).dropped() == dropped_after(
                old(self)@.len(),
                old(self).limit(),
                old(self).dropped(),
            ),
            final(self).limit() == old(self).limit(),
    {
        proof {
            use_type_invariant(&*self);
        }
        if self.message_limit == 0 || self.messages.len() < self.message_limit {
            // The deque is taken out while it grows: the queue itself is
            // within its limit at every moment.
            let mut messages = VecDeque::new();
            std::mem::swap(&mut self.messages, &mut messages);
            messages.push_back(message);
            std::mem::swap(&mut self.messages, &mut messages);
        } else if self.dropped_messages < usize::MAX {
            self.dropped_messages += 1;
        }
    }
}

impl<T> Dequeue<T> for MemQueue<T> {
    /// Removes and returns the oldest item, or `None` when the queue is empty.
    fn dequeue(&mut self) -> (message: Option<T>)
        ensures
            message == front(old(self)@),
            final(self)@ == dequeued(old(self)@),
            final(self).dropped() == old(self).dropped(),
            final(self).limit() == old(self).limit(),
            old(self)@.len() == 0 ==> *final(self) == *old(self),
    {
        proof {
            use_type_invariant(&*self);
        }
        match self.has_messages() {
            true => {
                let mut messages = VecDeque::new();
                std::mem::swap(&mut self.messages, &mut messages);
                let message = messages.pop_front();
                std::mem::swap(&mut self.messages, &mut messages);
                message
            },
            false => None,
        }
    }
}

impl<T> QueueMeta for MemQueue<T> {
    fn has_messages(&self) -> (nonempty: bool)
        ensures
            nonempty == (self@.len() > 0),
    {
        self.messages.len() > 0
    }
}

impl<T> Queue<T> for MemQueue<T> {

}

/// Offering one more item after a list of items is the same as offering
/// the list with the item at its end.
pub proof fn lemma_enqueued_all_push<T>(
    items: Seq<T>,
    limit: nat,
    dropped: nat,
    messages: Seq<T>,
    message: T,
)
    ensures
        enqueued_all(items, limit, messages.push(message)) == enqueued(
            enqueued_all(items, limit, messages),
            limit,
            message,
        ),
        dropped_after_all(items, limit, dropped, messages.push(message)) == dropped_after(
            enqueued_all(items, limit, messages).len(),
            limit,
            dropped_after_all(items, limit, dropped, messages),
        ),
    decreases messages.len(),
{
    let longer = messages.push(message);
    if messages.len() == 0 {
        assert(enqueued_all(enqueued(items, limit, message), limit, longer.skip(1)) == enqueued(
            items,
            limit,
            message,
        ));
        assert(dropped_after_all(
            enqueued(items, limit, message),
            limit,
            dropped_after(items.len(), limit, dropped),
            longer.skip(1),
        ) == dropped_after(items.len(), limit, dropped));
    } else {
        assert(longer.skip(1) =~= messages.skip(1).push(message));
        lemma_enqueued_all_push(
            enqueued(items, limit, messages[0]),
            limit,
            dropped_after(items.len(), limit, dropped),
            messages.skip(1),
            message,
        );
    }
}

/// While there is room, offering items appends them, and nothing is dropped.
proof fn lemma_enqueued_all_with_room<T>(items: Seq<T>, limit: nat, messages: Seq<T>)
    requires
        limit == 0 || items.len() + messages.len() <= limit,
    ensures
        enqueued_all(items, limit, messages) == items + messages,
        dropped_after_all(items, limit, 0, messages) == 0,
    decreases messages.len(),
{
    if messages.len() > 0 {
        lemma_enqueued_all_with_room(items.push(messages[0]), limit, messages.skip(1));
    }
}

/// Removing `n` items leaves what comes after the first `n`.
proof fn lemma_dequeued_n_skips<T>(items: Seq<T>, n: nat)
    requires
        n <= items.len(),
    ensures
        dequeued_n(items, n) == items.skip(n as int),
    decreases n,
{
    if n > 0 {
        lemma_dequeued_n_skips(items.skip(1), (n - 1) as nat);
    }
}

/// First in, first out: when an empty queue has room for all of `messages`,
/// offering them in order stores exactly `messages`, nothing is dropped, and
/// the removals that follow return them in the order they were offered,
/// leaving the queue empty.
pub proof fn lemma_fifo<T>(limit: nat, messages: Seq<T>)
    requires
        limit == 0 || messages.len() <= limit,
    ensures
        enqueued_all(Seq::<T>::empty(), limit, messages) == messages,
        dropped_after_all(Seq::<T>::empty(), limit, 0, messages) == 0,
        forall|i: int|
            0 <= i < messages.len() ==> front(#[trigger] dequeued_n(messages, i as nat)) == Some(
                messages[i],
            ),
        dequeued_n(messages, messages.len()) == Seq::<T>::empty(),
{
    lemma_enqueued_all_with_room(Seq::<T>::empty(), limit, messages);
    assert forall|i: int| 0 <= i < messages.len() implies front(
        #[trigger] dequeued_n(messages, i as nat),
    ) == Some(messages[i]) by {
        lemma_dequeued_n_skips(messages, i as nat);
    }
    lemma_dequeued_n_skips(messages, messages.len());
}

/// How many of `offered` items a queue that holds `len` of at most `limit` items accepts.
pub open spec fn accepted(len: nat, limit: nat, offered: nat) -> nat {
    if limit == 0 || len + offered <= limit {
        offered
    } else if len <= limit {
        (limit - len) as nat
    } else {
        0
    }
}

/// Tail drop: a bounded queue keeps what it held, accepts offered items in
/// order until it is full, and discards the rest. Its length never passes
/// the capacity, and the drop counter grows by exactly the number of
/// discarded items (stopping at `usize::MAX`).
pub proof fn lemma_drop_policy<T>(items: Seq<T>, limit: nat, dropped: nat, messages: Seq<T>)
    requires
        limit > 0,
        items.len() <= limit,
        dropped <= usize::MAX,
    ensures
        enqueued_all(items, limit, messages) == items + messages.take(
            accepted(items.len(), limit, messages.len()) as int,
        ),
        enqueued_all(items, limit, messages).len() <= limit,
        items.len() + messages.len() >= limit ==> enqueued_all(items, limit, messages).len()
            == limit,
        dropped_after_all(items, limit, dropped, messages) == if dropped + messages.len()
            - accepted(items.len(), limit, messages.len()) <= usize::MAX {
            dropped + messages.len() - accepted(items.len(), limit, messages.len())
        } else {
            usize::MAX as int
        },
    decreases messages.len(),
{
    if messages.len() > 0 {
        lemma_drop_policy(
            enqueued(items, limit, messages[0]),
            limit,
            dropped_after(items.len(), limit, dropped),
            messages.skip(1),
        );
    }
}

} // verus!
