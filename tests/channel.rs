use jlrs_sched::channel::{
    closed_outcome, send_outcome, ChannelSender, Mailbox, Received, TrySendError,
};
use jlrs_sched::error::JlrsError;
use jlrs_sched::handle::{AsyncJulia, PersistentHandle, PersistentMessage};
use jlrs_sched::runtime::{Action, Message, MessageInner, Scheduler};
use std::cell::RefCell;
use std::collections::HashMap;
use std::rc::Rc;

struct Shared<T>(Rc<RefCell<Mailbox<T>>>);

impl<T> ChannelSender<T> for Shared<T> {
    fn try_send(&self, msg: T) -> Result<(), TrySendError<T>> {
        self.0.borrow_mut().try_send(msg)
    }
}

#[test]
fn full_mailbox_refuses_without_waiting() {
    let mut m: Mailbox<u32> = Mailbox::new(1);
    assert!(m.try_send(1).is_ok());
    match m.try_send(2) {
        Err(TrySendError::Full(v)) => assert_eq!(v, 2),
        _ => panic!("expected a full mailbox"),
    }
    assert_eq!(m.len(), 1);
}

#[test]
fn closed_mailbox_refuses() {
    let mut m: Mailbox<u32> = Mailbox::new(4);
    m.close();
    match m.try_send(9) {
        Err(TrySendError::Closed(v)) => assert_eq!(v, 9),
        _ => panic!("expected a closed mailbox"),
    }
}

#[test]
fn send_outcomes_map_to_errors() {
    assert_eq!(send_outcome::<u8>(Ok(())), Ok(()));
    assert_eq!(send_outcome(Err(TrySendError::Full(3u8))), Err(JlrsError::ChannelFull));
    assert_eq!(send_outcome(Err(TrySendError::Closed(3u8))), Err(JlrsError::ChannelClosed));
    assert_eq!(closed_outcome::<()>(Err(())), Err(JlrsError::ChannelClosed));
    assert_eq!(closed_outcome::<()>(Ok(())), Ok(()));
}

#[test]
fn try_task_on_full_channel_is_a_capacity_error() {
    let mb = Rc::new(RefCell::new(Mailbox::<Message>::new(1)));
    let julia = AsyncJulia::new(Shared(mb.clone()));
    assert_eq!(julia.try_task(1), Ok(()));
    assert_eq!(julia.try_task(2), Err(JlrsError::ChannelFull));
    assert_eq!(julia.try_blocking_task(3), Err(JlrsError::ChannelFull));
    assert_eq!(mb.borrow().len(), 1);
    mb.borrow_mut().close();
    assert_eq!(julia.try_error_color(true, 4), Err(JlrsError::ChannelClosed));
}

#[test]
fn call_in_flight_is_delivered_after_handles_drop() {
    let mb = Rc::new(RefCell::new(Mailbox::<PersistentMessage<i64>>::new(2)));
    let handle = PersistentHandle::new(Shared(mb.clone()));
    let second = PersistentHandle::new(Shared(mb.clone()));
    mb.borrow_mut().add_sender();
    assert_eq!(handle.try_call(21, 100), Ok(()));
    drop(handle);
    drop(second);
    mb.borrow_mut().drop_sender();
    mb.borrow_mut().drop_sender();
    match mb.borrow_mut().recv() {
        Received::Message(m) => {
            assert_eq!(m.input, 21);
            assert_eq!(m.reply, 100);
        }
        _ => panic!("the accepted call was lost"),
    }
    assert!(matches!(mb.borrow_mut().recv(), Received::Closed));
}

#[test]
fn empty_mailbox_with_senders_waits() {
    let mut m: Mailbox<u8> = Mailbox::new(2);
    assert!(matches!(m.recv(), Received::Empty));
    assert_eq!(m.senders(), 1);
    m.drop_sender();
    assert_eq!(m.senders(), 0);
    assert!(matches!(m.recv(), Received::Closed));
}

#[test]
fn persistent_call_on_full_channel_is_refused() {
    let mb = Rc::new(RefCell::new(Mailbox::<PersistentMessage<u8>>::new(1)));
    let h = PersistentHandle::new(Shared(mb));
    assert_eq!(h.try_call(1, 1), Ok(()));
    assert_eq!(h.try_call(2, 2), Err(JlrsError::ChannelFull));
}

// Two tasks on one slot, each computing its own value; whatever the order of completion,
// each reply carries the value of its own task.
#[test]
fn two_tasks_each_get_their_own_result() {
    let mb = Rc::new(RefCell::new(Mailbox::<Message>::new(8)));
    let julia = AsyncJulia::new(Shared(mb.clone()));
    let inputs: HashMap<u64, i64> = [(1u64, 6i64), (2u64, 7i64)].into_iter().collect();
    assert_eq!(julia.try_task(1), Ok(()));
    assert_eq!(julia.try_task(2), Ok(()));
    let mut sched = Scheduler::new(1);
    let mut replies: HashMap<u64, i64> = HashMap::new();
    loop {
        let msg = match mb.borrow_mut().recv() {
            Received::Message(m) => m,
            _ => break,
        };
        match sched.handle(msg) {
            Action::Start { task, slot } => {
                replies.insert(task, inputs[&task] * inputs[&task]);
                mb.borrow_mut().try_send(MessageInner::Complete(slot).wrap()).ok();
            }
            Action::Queued { .. } | Action::Released { .. } => {}
            other => panic!("unexpected action {:?}", other),
        }
    }
    assert_eq!(replies.get(&1), Some(&36));
    assert_eq!(replies.get(&2), Some(&49));
    assert_eq!(sched.n_running(), 0);
}
