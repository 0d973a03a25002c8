//! Channels between the handles and the runtime: the sending interface that a transport
//! implements, how a send's outcome becomes a result, and a bounded in-process mailbox.

use crate::error::{JlrsError, JlrsResult};
use std::collections::VecDeque;
use vstd::prelude::*;

verus! {

/// Why a message could not be put in a channel without waiting; the message comes back.
pub enum TrySendError<T> {
    /// The channel has no room.
    Full(T),
    /// The receiving side is gone.
    Closed(T),
}

/// The sending half of a bounded multi-producer channel, as a transport provides it.
pub trait ChannelSender<T> {
    /// Puts `msg` in the channel if there is room now, without waiting.
    fn try_send(&self, msg: T) -> Result<(), TrySendError<T>>;
}

/// The result of a send that did not wait: a full channel is a capacity error, a closed one
/// a closed-channel error.
pub fn send_outcome<T>(r: Result<(), TrySendError<T>>) -> (out: JlrsResult<()>)
    ensures
        r is Ok <==> out is Ok,
        r is Err && r->Err_0 is Full ==> out == Err::<(), JlrsError>(JlrsError::ChannelFull),
        r is Err && r->Err_0 is Closed ==> out == Err::<(), JlrsError>(JlrsError::ChannelClosed),
{
    match r {
        Ok(()) => Ok(()),
        Err(TrySendError::Full(_)) => Err(JlrsError::ChannelFull),
        Err(TrySendError::Closed(_)) => Err(JlrsError::ChannelClosed),
    }
}

/// The result of a send that waited for room: it can only fail because the channel closed.
pub fn closed_outcome<E>(r: Result<(), E>) -> (out: JlrsResult<()>)
    ensures
        r is Ok <==> out is Ok,
        r is Err ==> out == Err::<(), JlrsError>(JlrsError::ChannelClosed),
{
    match r {
        Ok(()) => Ok(()),
        Err(_) => Err(JlrsError::ChannelClosed),
    }
}

/// What a receiver finds.
pub enum Received<T> {
    /// The oldest message.
    Message(T),
    /// Nothing yet, but senders remain: wait.
    Empty,
    /// Nothing, and no sender remains: the channel is done.
    Closed,
}

/// What a receiver finds in a mailbox that holds `queued` and has `senders` senders.
pub open spec fn recv_outcome<T>(queued: Seq<T>, senders: nat) -> Received<T> {
    if queued.len() > 0 {
        Received::Message(queued[0])
    } else if senders == 0 {
        Received::Closed
    } else {
        Received::Empty
    }
}

/// Once a call is in the mailbox, dropping every sender does not lose it: the receiver gets
/// the calls in order, one per receive, and sees the channel closed only after the last of
/// them, when nothing is left and no sender remains.
pub proof fn law_accepted_calls_outlive_senders<T>(queued: Seq<T>, senders: nat)
    ensures
        queued.len() > 0 ==> recv_outcome(queued, 0) == Received::Message(queued[0]),
        recv_outcome(queued, senders) is Closed ==> queued.len() == 0 && senders == 0,
        recv_outcome(Seq::<T>::empty(), 0) is Closed,
{
}

/// A bounded first-in first-out mailbox that counts its senders.
pub struct Mailbox<T> {
    queue: VecDeque<T>,
    capacity: usize,
    senders: usize,
    receiver_alive: bool,
}

impl<T> Mailbox<T> {
    /// The messages in the mailbox, oldest first.
    pub closed spec fn queued(&self) -> Seq<T> {
        self.queue@
    }

    /// The number of messages it holds at most.
    pub closed spec fn bound(&self) -> nat {
        self.capacity as nat
    }

    /// The number of live senders.
    pub closed spec fn n_senders(&self) -> nat {
        self.senders as nat
    }

    /// The receiver is still there.
    pub closed spec fn open(&self) -> bool {
        self.receiver_alive
    }

    /// An empty mailbox for `capacity` messages, with one sender and its receiver.
    pub fn new(capacity: usize) -> (m: Mailbox<T>)
        ensures
            m.queued() == Seq::<T>::empty(),
            m.bound() == capacity,
            m.n_senders() == 1,
            m.open(),
    {
        Mailbox { queue: VecDeque::new(), capacity, senders: 1, receiver_alive: true }
    }

    /// The number of queued messages.
    pub fn len(&self) -> (n: usize)
        ensures
            n == self.queued().len(),
    {
        self.queue.len()
    }

    /// The number of live senders.
    pub fn senders(&self) -> (n: usize)
        ensures
            n == self.n_senders(),
    {
        self.senders
    }

    /// Puts `msg` at the back if the receiver is there and there is room; never waits. On a
    /// refusal the message comes back and the mailbox is unchanged.
    pub fn try_send(&mut self, msg: T) -> (r: Result<(), TrySendError<T>>)
        ensures
            final(self).bound() == old(self).bound(),
            final(self).n_senders() == old(self).n_senders(),
            final(self).open() == old(self).open(),
            !old(self).open() ==> r == Err::<(), TrySendError<T>>(TrySendError::Closed(msg))
                && final(self).queued() == old(self).queued(),
            old(self).open() && old(self).queued().len() >= old(self).bound() ==> r == Err::<
                (),
                TrySendError<T>,
            >(TrySendError::Full(msg)) && final(self).queued() == old(self).queued(),
            old(self).open() && old(self).queued().len() < old(self).bound() ==> r is Ok
                && final(self).queued() == old(self).queued().push(msg),
    {
        if !self.receiver_alive {
            Err(TrySendError::Closed(msg))
        } else if self.queue.len() >= self.capacity {
            Err(TrySendError::Full(msg))
        } else {
            self.queue.push_back(msg);
            Ok(())
        }
    }

    /// Takes the oldest message. Messages already accepted are handed out even after the last
    /// sender is gone; only an empty mailbox without senders reports `Closed`.
    pub fn recv(&mut self) -> (r: Received<T>)
        ensures
            final(self).bound() == old(self).bound(),
            final(self).n_senders() == old(self).n_senders(),
            final(self).open() == old(self).open(),
            r == recv_outcome(old(self).queued(), old(self).n_senders()),
            old(self).queued().len() > 0 ==> final(self).queued() == old(self).queued().drop_first(),
            old(self).queued().len() == 0 ==> final(self).queued() == old(self).queued(),
    {
        match self.queue.pop_front() {
            Some(m) => {
                proof {
                    assert(self.queue@ =~= old(self).queued().drop_first());
                }
                Received::Message(m)
            },
            None => if self.senders == 0 {
                Received::Closed
            } else {
                Received::Empty
            },
        }
    }

    /// Counts one more sender, as when a handle is cloned.
    pub fn add_sender(&mut self)
        requires
            old(self).n_senders() < usize::MAX,
        ensures
            final(self).n_senders() == old(self).n_senders() + 1,
            final(self).queued() == old(self).queued(),
            final(self).bound() == old(self).bound(),
            final(self).open() == old(self).open(),
    {
        self.senders = self.senders + 1;
    }

    /// Counts one sender less, as when a handle is dropped.
    pub fn drop_sender(&mut self)
        requires
            old(self).n_senders() > 0,
        ensures
            final(self).n_senders() == old(self).n_senders() - 1,
            final(self).queued() == old(self).queued(),
            final(self).bound() == old(self).bound(),
            final(self).open() == old(self).open(),
    {
        self.senders = self.senders - 1;
    }

    /// The receiver goes away: later sends are refused as closed.
    pub fn close(&mut self)
        ensures
            !final(self).open(),
            final(self).n_senders() == old(self).n_senders(),
            final(self).queued() == old(self).queued(),
            final(self).bound() == old(self).bound(),
    {
        self.receiver_alive = false;
    }
}

} // verus!
