//! Handles through which other threads reach the runtime and its persistent tasks.

use crate::channel::{send_outcome, ChannelSender};
use crate::error::{JlrsError, JlrsResult};
use crate::runtime::{Message, MessageInner};
use vstd::prelude::*;

verus! {

/// A send that did not wait either went through or was refused for lack of room or because
/// the channel closed.
pub open spec fn send_refusal(r: JlrsResult<()>) -> bool {
    r is Ok || r == Err::<(), JlrsError>(JlrsError::ChannelFull) || r == Err::<(), JlrsError>(
        JlrsError::ChannelClosed,
    )
}

/// A handle to the runtime; the caller keeps each task and reply channel under a ticket.
pub struct AsyncJulia<S> {
    sender: S,
}

impl<S: ChannelSender<Message>> AsyncJulia<S> {
    /// A handle that sends through `sender`.
    pub fn new(sender: S) -> (h: AsyncJulia<S>)
        ensures
            h.sender() == sender,
    {
        AsyncJulia { sender }
    }

    /// The channel the handle sends on.
    pub closed spec fn sender(&self) -> S {
        self.sender
    }

    fn try_send_request(&self, request: MessageInner) -> (r: JlrsResult<()>)
        ensures
            send_refusal(r),
    {
        send_outcome(self.sender.try_send(request.wrap()))
    }

    /// Submits the async task `ticket` if the channel has room now.
    pub fn try_task(&self, ticket: u64) -> (r: JlrsResult<()>)
        ensures
            send_refusal(r),
    {
        self.try_send_request(MessageInner::Task(ticket))
    }

    /// Submits the registration `ticket` of a task type; it runs like an async task.
    pub fn try_register_task(&self, ticket: u64) -> (r: JlrsResult<()>)
        ensures
            send_refusal(r),
    {
        self.try_send_request(MessageInner::Task(ticket))
    }

    /// Submits the persistent task `ticket`, whose calls will arrive through the channel that
    /// `calls` sends on; on success the handle to it sends through `calls`.
    pub fn try_persistent<P>(&self, ticket: u64, calls: P) -> (r: JlrsResult<PersistentHandle<P>>)
        ensures
            r is Ok ==> r->Ok_0.sender() == calls,
            r is Err ==> r == Err::<PersistentHandle<P>, JlrsError>(JlrsError::ChannelFull) || r
                == Err::<PersistentHandle<P>, JlrsError>(JlrsError::ChannelClosed),
    {
        match self.try_send_request(MessageInner::Task(ticket)) {
            Ok(()) => Ok(PersistentHandle::new(calls)),
            Err(e) => Err(e),
        }
    }

    /// Submits the registration `ticket` of a persistent task type; it runs like an async task.
    pub fn try_register_persistent(&self, ticket: u64) -> (r: JlrsResult<()>)
        ensures
            send_refusal(r),
    {
        self.try_send_request(MessageInner::Task(ticket))
    }

    /// Submits the blocking task `ticket` if the channel has room now.
    pub fn try_blocking_task(&self, ticket: u64) -> (r: JlrsResult<()>)
        ensures
            send_refusal(r),
    {
        self.try_send_request(MessageInner::BlockingTask(ticket))
    }

    /// Submits the inclusion of the file under `ticket`, which the caller has found to exist.
    pub fn try_include(&self, ticket: u64) -> (r: JlrsResult<()>)
        ensures
            send_refusal(r),
    {
        self.try_send_request(MessageInner::Include(ticket))
    }

    /// Asks for colored error messages to be turned on or off; `ticket` names the reply.
    pub fn try_error_color(&self, enable: bool, ticket: u64) -> (r: JlrsResult<()>)
        ensures
            send_refusal(r),
    {
        self.try_send_request(MessageInner::ErrorColor(enable, ticket))
    }
}

/// A call of a persistent task: its input and the ticket of its reply channel.
pub struct PersistentMessage<I> {
    pub input: I,
    pub reply: u64,
}

/// A handle to a persistent task, sending calls through the task's own channel.
pub struct PersistentHandle<S> {
    sender: S,
}

impl<S> PersistentHandle<S> {
    /// A handle that sends through `sender`.
    pub fn new(sender: S) -> (h: PersistentHandle<S>)
        ensures
            h.sender() == sender,
    {
        PersistentHandle { sender }
    }

    /// The channel the handle sends on.
    pub closed spec fn sender(&self) -> S {
        self.sender
    }

    /// Calls the task with `input` if its channel has room now; `reply` names the channel
    /// that receives the result.
    pub fn try_call<I>(&self, input: I, reply: u64) -> (r: JlrsResult<()>) where
        S: ChannelSender<PersistentMessage<I>>,

        ensures
            send_refusal(r),
    {
        send_outcome(self.sender.try_send(PersistentMessage { input, reply }))
    }
}

} // verus!
