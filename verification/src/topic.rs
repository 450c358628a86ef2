//! Topics, subscriptions, and the queues that back them.
//!
//! A [`TopicQueueContainer`] holds named queues, which it creates on demand.
//! A queue is reached by the handle that [`TopicQueueContainer::get_queue`]
//! gives for its name. The names are kept in a hash map.

use crate::queue::{
    dequeued, dropped_after, enqueued, front, Dequeue, Enqueue, MemQueue, QueueMeta,
};
use vstd::prelude::*;

verus! {

/// An addressable Topic trait.
pub trait Topic {
    fn topic_address(&self) -> &str;
}

/// In-memory implementation of an addressable [`Topic`]
pub struct MemTopic {
    pub topic_address: String,
}

impl MemTopic {
    pub fn create(topic_name: &str) -> (topic: MemTopic)
        ensures
            topic.topic_address@ == topic_name@,
    {
        MemTopic { topic_address: topic_name.to_string() }
    }
}

impl Topic for MemTopic {
    fn topic_address(&self) -> (address: &str)
        ensures
            address@ == self.topic_address@,
    {
        self.topic_address.as_str()
    }
}

/// Wrapper type for a [`Topic`] trait object.
pub type TopicHandle = Box<dyn Topic>;

/// An association between a Subscriber and a [`Topic`], backed by a queue.
pub trait Subscription {
    /// Address of the [`Topic`] of this subscription.
    fn topic(&self) -> &str;

    /// The address of this subscription.
    fn subscriber_address(&self) -> &str;
}

/// In-memory implementation of a [`Subscription`].
pub struct MemSubscription {
    pub topic: String,
    pub subscriber_address: String,
}

impl Clone for MemSubscription {
    fn clone(&self) -> (copy: MemSubscription)
        ensures
            copy == *self,
    {
        MemSubscription {
            topic: self.topic.clone(),
            subscriber_address: self.subscriber_address.clone(),
        }
    }
}

impl MemSubscription {
    /// Create a new subscription on `topic`, at the given address.
    pub fn create(topic: &str, subscriber_address: &str) -> (subscription: MemSubscription)
        ensures
            subscription.topic@ == topic@,
            subscription.subscriber_address@ == subscriber_address@,
    {
        MemSubscription {
            topic: topic.to_string(),
            subscriber_address: subscriber_address.to_string(),
        }
    }
}

impl Subscription for MemSubscription {
    fn topic(&self) -> (topic: &str)
        ensures
            topic@ == self.topic@,
    {
        self.topic.as_str()
    }

    fn subscriber_address(&self) -> (address: &str)
        ensures
            address@ == self.subscriber_address@,
    {
        self.subscriber_address.as_str()
    }
}

/// A Worker that manages publish/subscribe [`Subscription`]s to a [`Topic`].
pub trait TopicWorker<T> {
    /// Publishes `message` to the [`Topic`] at `topic`.
    fn publish(&mut self, topic: &str, message: T);

    /// Start a new [`Subscription`] to `topic`. On success, the [`Subscription`]'s Address is
    /// returned.
    fn subscribe(&mut self, topic: &str) -> Option<String>;

    /// Fetch all available messages for `subscriber`.
    fn consume_messages(&mut self, subscriber: &str) -> Box<Vec<T>>;

    /// Remove the [`Subscription`] at address `subscriber`.
    fn unsubscribe(&mut self, subscriber: &str);
}

/// A hash map from names to places in a list.
///
/// The map is `hashbrown::HashMap<String, usize>`. Verus does not look
/// inside it: what it holds is named by [`index_entries`].
#[verifier::external_body]
pub struct NameIndex {
    map: hashbrown::HashMap<String, usize>,
}

/// What a [`NameIndex`] holds: the place that goes with each name in it.
pub uninterp spec fn index_entries(index: NameIndex) -> Map<Seq<char>, usize>;

/// The place that goes with `name` in `entries`, if `name` is in it.
pub open spec fn place_of(entries: Map<Seq<char>, usize>, name: Seq<char>) -> Option<usize> {
    if entries.contains_key(name) {
        Some(entries[name])
    } else {
        None
    }
}

/// `hashbrown::HashMap::new`: the map it makes holds nothing.
#[verifier::external_body]
fn index_new() -> (index: NameIndex)
    ensures
        index_entries(index) =~= Map::empty(),
{
    NameIndex { map: hashbrown::HashMap::new() }
}

/// `hashbrown::HashMap::contains_key`: whether the map holds the name.
#[verifier::external_body]
fn index_contains_key(index: &NameIndex, name: &str) -> (found: bool)
    ensures
        found == index_entries(*index).contains_key(name@),
{
    index.map.contains_key(name)
}

/// `hashbrown::HashMap::get`: the place stored under the name, if the map
/// holds the name.
#[verifier::external_body]
fn index_get(index: &NameIndex, name: &str) -> (place: Option<usize>)
    ensures
        place == place_of(index_entries(*index), name@),
{
    index.map.get(name).copied()
}

/// `hashbrown::HashMap::insert`: afterwards the map holds the place under
/// the name, and everything else as before; the place that was stored under
/// the name before, if any, is returned.
#[verifier::external_body]
fn index_insert(index: &mut NameIndex, name: String, place: usize) -> (previous: Option<usize>)
    ensures
        index_entries(*final(index)) == index_entries(*old(index)).insert(name@, place),
        previous == place_of(index_entries(*old(index)), name@),
{
    index.map.insert(name, place)
}

/// `hashbrown::HashMap::remove`: afterwards the map does not hold the name,
/// and everything else as before; the place that was stored under the name,
/// if any, is returned.
#[verifier::external_body]
fn index_remove(index: &mut NameIndex, name: &str) -> (removed: Option<usize>)
    ensures
        index_entries(*final(index)) == index_entries(*old(index)).remove(name@),
        removed == place_of(index_entries(*old(index)), name@),
{
    index.map.remove(name)
}

/// Names a queue of a [`TopicQueueContainer`].
pub type QueueHandle = usize;

/// An in-memory queue tracking worker. Queues will be created on demand by `get_queue`.
pub struct TopicQueueContainer<T> {
    address: String,
    queue_map: NameIndex,
    queues: Vec<Option<MemQueue<T>>>,
    default_queue_limit: usize,
}

/// Wrapper type for a queue container.
pub type QueueContainerHandle<T> = Box<TopicQueueContainer<T>>;

impl<T> TopicQueueContainer<T> {
    /// The handle of each named queue.
    pub closed spec fn names(&self) -> Map<Seq<char>, QueueHandle> {
        index_entries(self.queue_map)
    }

    /// The number of handles given out so far.
    pub closed spec fn handles(&self) -> nat {
        self.queues@.len()
    }

    /// The queue that `handle` names, if it names one.
    pub closed spec fn queue(&self, handle: int) -> Option<MemQueue<T>> {
        if 0 <= handle < self.queues@.len() {
            self.queues@[handle]
        } else {
            None
        }
    }

    /// The container's own address.
    pub closed spec fn own_address(&self) -> Seq<char> {
        self.address@
    }

    /// The capacity that new queues are created with.
    pub closed spec fn default_limit(&self) -> nat {
        self.default_queue_limit as nat
    }

    /// Every name has a queue, and no two names share one.
    pub open spec fn wf(&self) -> bool {
        &&& forall|name: Seq<char>| #[trigger]
            self.names().contains_key(name) ==> self.queue(self.names()[name] as int) is Some
        &&& forall|a: Seq<char>, b: Seq<char>|
            self.names().contains_key(a) && self.names().contains_key(b)
                && #[trigger] self.names()[a]
                == #[trigger] self.names()[b] ==> a == b
    }

    /// The same container but for the queue that `handle` names.
    pub open spec fn same_but(&self, before: &TopicQueueContainer<T>, handle: int) -> bool {
        &&& self.names() == before.names()
        &&& self.handles() == before.handles()
        &&& self.own_address() == before.own_address()
        &&& self.default_limit() == before.default_limit()
        &&& forall|other: int| other != handle ==> self.queue(other) == before.queue(other)
    }

    pub fn new(address: &str, default_queue_limit: usize) -> (container: TopicQueueContainer<T>)
        ensures
            container.wf(),
            container.names() == Map::<Seq<char>, QueueHandle>::empty(),
            container.handles() == 0,
            container.own_address() == address@,
            container.default_limit() == default_queue_limit,
    {
        TopicQueueContainer {
            address: address.to_string(),
            queue_map: index_new(),
            queues: Vec::new(),
            default_queue_limit,
        }
    }

    pub fn create(address: &str, default_queue_limit: usize) -> (container: QueueContainerHandle<T>)
        ensures
            container.wf(),
            container.names() == Map::<Seq<char>, QueueHandle>::empty(),
            container.handles() == 0,
            container.own_address() == address@,
            container.default_limit() == default_queue_limit,
    {
        Box::new(TopicQueueContainer::new(address, default_queue_limit))
    }

    pub fn create_unbound(address: &str) -> (container: QueueContainerHandle<T>)
        ensures
            container.wf(),
            container.names() == Map::<Seq<char>, QueueHandle>::empty(),
            container.handles() == 0,
            container.own_address() == address@,
            container.default_limit() == 0,
    {
        TopicQueueContainer::create(address, 0)
    }

    pub fn address(&self) -> (address: String)
        ensures
            address@ == self.own_address(),
    {
        self.address.clone()
    }

    /// The handle of the queue named `queue_address`. A queue that does not
    /// exist yet is created, empty and with the default capacity. The empty
    /// name names no queue.
    pub fn get_queue(&mut self, queue_address: &str) -> (handle: Option<QueueHandle>)
        ensures
            old(self).wf() ==> final(self).wf(),
            final(self).own_address() == old(self).own_address(),
            final(self).default_limit() == old(self).default_limit(),
            queue_address@.len() == 0 ==> handle is None && final(self).same_but(old(self), -1),
            queue_address@.len() > 0 && old(self).names().contains_key(queue_address@) ==> handle
                == Some(old(self).names()[queue_address@]) && final(self).same_but(old(self), -1),
            queue_address@.len() > 0 && !old(self).names().contains_key(queue_address@) ==> {
                &&& handle is Some
                &&& handle->Some_0 == old(self).handles()
                &&& final(self).names() == old(self).names().insert(queue_address@, handle->Some_0)
                &&& final(self).handles() == old(self).handles() + 1
                &&& final(self).queue(handle->Some_0 as int) is Some
                &&& final(self).queue(handle->Some_0 as int)->Some_0@ == Seq::<T>::empty()
                &&& final(self).queue(handle->Some_0 as int)->Some_0.limit()
                    == old(self).default_limit()
                &&& final(self).queue(handle->Some_0 as int)->Some_0.dropped() == 0
                &&& forall|other: int|
                    other != handle->Some_0 ==> final(self).queue(other) == old(self).queue(other)
            },
            queue_address@.len() > 0 ==> handle is Some && final(self).names().contains_key(
                queue_address@,
            ) && final(self).names()[queue_address@] == handle->Some_0,
            queue_address@.len() > 0 && old(self).wf() ==> final(self).queue(handle->Some_0 as int)
                is Some,
    {
        if queue_address.is_empty() {
            return None;
        }
        if index_contains_key(&self.queue_map, queue_address) {
            index_get(&self.queue_map, queue_address)
        } else {
            let name_string = queue_address.to_string();
            let new_queue = MemQueue::new(self.default_queue_limit);
            let place = self.queues.len();
            self.queues.push(Some(new_queue));
            let _ = index_insert(&mut self.queue_map, name_string, place);
            index_get(&self.queue_map, queue_address)
        }
    }

    /// Removes the queue named `queue_name`, with whatever it holds. Its
    /// handle names nothing afterwards.
    pub fn remove_queue(&mut self, queue_name: &str)
        ensures
            old(self).wf() ==> final(self).wf(),
            final(self).names() == old(self).names().remove(queue_name@),
            final(self).handles() == old(self).handles(),
            final(self).own_address() == old(self).own_address(),
            final(self).default_limit() == old(self).default_limit(),
            forall|handle: int|
                final(self).queue(handle) == if place_of(old(self).names(), queue_name@) == Some(
                    handle as usize,
                ) {
                    None
                } else {
                    old(self).queue(handle)
                },
    {
        match index_remove(&mut self.queue_map, queue_name) {
            Some(place) => {
                if place < self.queues.len() {
                    self.queues[place] = None;
                }
            },
            None => {},
        }
    }

    /// Offers `message` to the queue that `handle` names, and says whether
    /// `handle` names a queue.
    pub fn enqueue(&mut self, handle: QueueHandle, message: T) -> (named: bool)
        ensures
            named == (old(self).queue(handle as int) is Some),
            final(self).same_but(old(self), handle as int),
            old(self).wf() ==> final(self).wf(),
            named ==> {
                let before = old(self).queue(handle as int)->Some_0;
                let after = final(self).queue(handle as int)->Some_0;
                &&& final(self).queue(handle as int) is Some
                &&& after@ == enqueued(before@, before.limit(), message)
                &&& after.dropped()
                    == dropped_after(before@.len(), before.limit(), before.dropped())
                &&& after.limit() == before.limit()
            },
            !named ==> final(self).queue(handle as int) is None,
    {
        if handle >= self.queues.len() {
            return false;
        }
        match &mut self.queues[handle] {
            Some(queue) => {
                queue.enqueue(message);
                true
            },
            None => false,
        }
    }

    /// Takes the oldest message off the queue that `handle` names.
    pub fn dequeue(&mut self, handle: QueueHandle) -> (message: Option<T>)
        ensures
            final(self).same_but(old(self), handle as int),
            old(self).wf() ==> final(self).wf(),
            match old(self).queue(handle as int) {
                Some(before) => {
                    let after = final(self).queue(handle as int)->Some_0;
                    &&& final(self).queue(handle as int) is Some
                    &&& message == front(before@)
                    &&& after@ == dequeued(before@)
                    &&& after.dropped() == before.dropped()
                    &&& after.limit() == before.limit()
                },
                None => message is None && final(self).queue(handle as int) is None,
            },
    {
        if handle >= self.queues.len() {
            return None;
        }
        match &mut self.queues[handle] {
            Some(queue) => queue.dequeue(),
            None => None,
        }
    }

    /// Whether the queue that `handle` names holds messages.
    pub fn has_messages(&self, handle: QueueHandle) -> (nonempty: bool)
        ensures
            nonempty == match self.queue(handle as int) {
                Some(queue) => queue@.len() > 0,
                None => false,
            },
    {
        if handle >= self.queues.len() {
            return false;
        }
        match &self.queues[handle] {
            Some(queue) => queue.has_messages(),
            None => false,
        }
    }
}

/// In-memory [`TopicWorker`] for [`Subscription`] state tracking.
pub struct MemTopicWorker<T> {
    queue_worker: QueueContainerHandle<T>,
    subscriptions: NameIndex,
    subscription_id_counter: usize,
}

impl<T> MemTopicWorker<T> {
    /// The subscriptions, by the address of the subscriber.
    pub closed spec fn subscribers(&self) -> Map<Seq<char>, usize> {
        index_entries(self.subscriptions)
    }

    /// The queues that back the subscriptions.
    pub closed spec fn queues(&self) -> TopicQueueContainer<T> {
        *self.queue_worker
    }

    /// The number of subscriptions made so far.
    pub closed spec fn subscriptions_made(&self) -> nat {
        self.subscription_id_counter as nat
    }

    pub fn new(queue_worker: QueueContainerHandle<T>) -> (worker: MemTopicWorker<T>)
        ensures
            worker.subscribers() == Map::<Seq<char>, usize>::empty(),
            worker.queues() == *queue_worker,
            worker.subscriptions_made() == 0,
    {
        MemTopicWorker { subscriptions: index_new(), subscription_id_counter: 0, queue_worker }
    }

    pub fn create(queue_worker: QueueContainerHandle<T>) -> (worker: Box<MemTopicWorker<T>>)
        ensures
            worker.subscribers() == Map::<Seq<char>, usize>::empty(),
            worker.queues() == *queue_worker,
            worker.subscriptions_made() == 0,
    {
        Box::new(MemTopicWorker::new(queue_worker))
    }
}

impl TopicWorker<String> for MemTopicWorker<String> {
    /// Publishing reaches no subscriber yet: nothing changes.
    fn publish(&mut self, topic: &str, message: String)
        ensures
            *final(self) == *old(self),
    {
    }

    /// Subscriptions are not made yet: the answer is `None`, and nothing changes.
    fn subscribe(&mut self, topic: &str) -> (address: Option<String>)
        ensures
            address is None,
            *final(self) == *old(self),
    {
        None
    }

    /// No subscriber has messages yet: the answer is empty, and nothing changes.
    fn consume_messages(&mut self, subscriber: &str) -> (messages: Box<Vec<String>>)
        ensures
            messages@.len() == 0,
            *final(self) == *old(self),
    {
        let messages = Box::new(Vec::new());
        match index_get(&self.subscriptions, subscriber) {
            _ => (),
        };
        messages
    }

    /// Removes the subscription at address `subscriber`.
    fn unsubscribe(&mut self, subscriber: &str)
        ensures
            final(self).subscribers() == old(self).subscribers().remove(subscriber@),
            final(self).queues() == old(self).queues(),
            final(self).subscriptions_made() == old(self).subscriptions_made(),
    {
        let _ = index_remove(&mut self.subscriptions, subscriber);
    }
}

} // verus!
