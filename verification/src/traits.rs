//! What a worker offers to the node.

use crate::error::Error;
use crate::message::Message;
use crate::queue::MemQueue;
use vstd::prelude::*;

verus! {

/// The capability to handle messages.
///
/// A worker registers its address along with a message handler. The handler is
/// called when the next hop of a message is that address. Messages that the
/// handler puts on `queue` are dispatched within the same tick. The handler
/// returns `Ok(true)` to keep the node running and `Ok(false)` to stop it.
pub trait ProcessMessage {
    fn process_message(&mut self, message: Message, queue: &mut MemQueue<Message>) -> Result<
        bool,
        Error,
    >;
}

/// The capability to be polled: the handler is called once each tick. It
/// returns `Ok(true)` to keep the node running and `Ok(false)` to stop it.
pub trait Poll {
    fn poll(&mut self, queue: &mut MemQueue<Message>) -> Result<bool, Error>;
}

/// What the caller of a handler does with the handler's outcome.
#[derive(Clone, Copy, Debug, PartialEq, Eq)]
pub enum Flow {
    /// The handler asked to keep going: the caller goes on with its own work.
    Continue,
    /// The handler asked to stop, or failed: the caller returns at once with the outcome it got.
    Halt(Result<bool, Error>),
}

/// What follows from the outcome of one handler.
pub open spec fn flow_of(outcome: Result<bool, Error>) -> Flow {
    if outcome == Ok::<bool, Error>(true) {
        Flow::Continue
    } else {
        Flow::Halt(outcome)
    }
}

/// What follows from the outcomes of handlers called one after the other: the
/// first outcome that is not "keep going" decides, and the handlers after it
/// are not called. When every handler asks to keep going, so does the caller.
pub open spec fn settle(outcomes: Seq<Result<bool, Error>>) -> Result<bool, Error>
    decreases outcomes.len(),
{
    if outcomes.len() == 0 {
        Ok(true)
    } else {
        match flow_of(outcomes[0]) {
            Flow::Continue => settle(outcomes.skip(1)),
            Flow::Halt(outcome) => outcome,
        }
    }
}

/// Decides what the caller of a handler does with the handler's outcome.
pub fn decide(outcome: Result<bool, Error>) -> (flow: Flow)
    ensures
        flow == flow_of(outcome),
{
    match outcome {
        Ok(true) => Flow::Continue,
        Ok(false) => Flow::Halt(Ok(false)),
        Err(error) => Flow::Halt(Err(error)),
    }
}

/// A stop signal halts at once: when the handler at position `k` asks to stop
/// and every handler before it asked to keep going, the outcome is "stop",
/// whatever the handlers after it would have answered.
pub proof fn lemma_stop_halts(outcomes: Seq<Result<bool, Error>>, k: int)
    requires
        0 <= k < outcomes.len(),
        outcomes[k] == Ok::<bool, Error>(false),
        forall|i: int| 0 <= i < k ==> outcomes[i] == Ok::<bool, Error>(true),
    ensures
        settle(outcomes) == Ok::<bool, Error>(false),
        settle(outcomes) == settle(outcomes.take(k + 1)),
    decreases k,
{
    if k > 0 {
        let rest = outcomes.skip(1);
        lemma_stop_halts(rest, k - 1);
        assert(outcomes.take(k + 1).skip(1) =~= rest.take(k));
    }
}

/// Whether every outcome of a list asks to keep going.
pub open spec fn all_continue(outcomes: Seq<Result<bool, Error>>) -> bool {
    forall|i: int| 0 <= i < outcomes.len() ==> outcomes[i] == Ok::<bool, Error>(true)
}

/// After handlers that all asked to keep going, the next handler decides.
pub proof fn lemma_settle_push(outcomes: Seq<Result<bool, Error>>, next: Result<bool, Error>)
    requires
        all_continue(outcomes),
    ensures
        settle(outcomes.push(next)) == next,
        settle(outcomes) == Ok::<bool, Error>(true),
    decreases outcomes.len(),
{
    let longer = outcomes.push(next);
    if outcomes.len() == 0 {
        assert(settle(longer.skip(1)) == Ok::<bool, Error>(true));
    } else {
        lemma_settle_push(outcomes.skip(1), next);
        assert(longer.skip(1) =~= outcomes.skip(1).push(next));
    }
}

/// An owned message handler of any type.
pub type ProcessMessageHandle = Box<dyn ProcessMessage>;

/// An owned poll handler of any type.
pub type PollHandle = Box<dyn Poll>;

} // verus!
