//! Unit tests of the engine's parts: mailbox, registry, reply ledger,
//! message streams and write handling.

use actorlite::context::{Actor, Context};
use actorlite::contextitems::MessageStream;
use actorlite::io::WriteHandler;
use actorlite::lifecycle::{ActorState, Running};
use actorlite::mailbox::{Envelope, Mailbox, MailboxError, SendError};
use actorlite::poll::Poll;
use actorlite::registry::SpawnRegistry;
use actorlite::replies::{ReplyLedger, ReplyState};

#[test]
fn unbounded_mailbox_always_admits() {
    let mut m: Mailbox<u64> = Mailbox::unbounded();
    for i in 0..100u64 {
        assert!(m.do_send(Envelope { msg: i, reply: None }).is_ok());
    }
    assert_eq!(m.len(), 100);
}

#[test]
fn bounded_mailbox_rejects_at_capacity() {
    let mut m: Mailbox<u64> = Mailbox::bounded(2);
    assert!(m.try_send(Envelope { msg: 1, reply: None }).is_ok());
    assert!(m.try_send(Envelope { msg: 2, reply: None }).is_ok());
    assert_eq!(m.try_send(Envelope { msg: 3, reply: None }), Err(SendError::Full));
    assert!(m.do_send(Envelope { msg: 3, reply: None }).is_ok());
}

#[test]
fn closed_mailbox_rejects_everything() {
    let mut m: Mailbox<u64> = Mailbox::unbounded();
    m.close();
    assert_eq!(m.do_send(Envelope { msg: 1, reply: None }), Err(SendError::Closed));
    assert_eq!(m.try_send(Envelope { msg: 1, reply: None }), Err(SendError::Closed));
}

#[test]
fn mailbox_pops_in_admission_order() {
    let mut m: Mailbox<u64> = Mailbox::unbounded();
    m.do_send(Envelope { msg: 10, reply: None }).unwrap();
    m.do_send(Envelope { msg: 20, reply: Some(0) }).unwrap();
    let a = m.pop().unwrap();
    let b = m.pop().unwrap();
    assert_eq!(a.msg, 10);
    assert_eq!(a.reply, None);
    assert_eq!(b.msg, 20);
    assert_eq!(b.reply, Some(0));
    assert!(m.pop().is_none());
}

#[test]
fn registry_handles_are_fresh_and_cancel_is_idempotent() {
    let mut reg: SpawnRegistry<u64> = SpawnRegistry::new();
    let h1 = reg.spawn(100).unwrap();
    let h2 = reg.spawn(200).unwrap();
    assert!(h1.id != h2.id);
    assert_eq!(reg.len(), 2);
    assert!(reg.cancel(h1));
    assert!(!reg.cancel(h1));
    assert_eq!(reg.len(), 1);
    let h3 = reg.spawn(300).unwrap();
    assert!(h3.id != h1.id);
    assert!(h3.id != h2.id);
}

#[test]
fn registry_remove_returns_the_item() {
    let mut reg: SpawnRegistry<&str> = SpawnRegistry::new();
    let h = reg.spawn("task").unwrap();
    assert_eq!(reg.remove(h.id), Some("task"));
    assert_eq!(reg.remove(h.id), None);
}

#[test]
fn reply_ledger_is_one_shot() {
    let mut l: ReplyLedger<u64> = ReplyLedger::new();
    let t = l.issue();
    assert!(matches!(l.status(t), ReplyState::Pending));
    assert!(l.resolve(t, 7));
    assert!(matches!(l.status(t), ReplyState::Replied(7)));
    assert!(!l.resolve(t, 8));
    assert!(matches!(l.status(t), ReplyState::Replied(7)));
    assert!(!l.cancel(t));
    assert!(!l.close(t));
    assert!(!l.time_out(t));
    assert!(matches!(l.status(t), ReplyState::Replied(7)));
}

#[test]
fn reply_ledger_close_all_resolves_only_pending() {
    let mut l: ReplyLedger<u64> = ReplyLedger::new();
    let a = l.issue();
    let b = l.issue();
    let c = l.issue();
    assert!(l.resolve(a, 1));
    assert!(l.cancel(b));
    l.close_all();
    assert!(matches!(l.status(a), ReplyState::Replied(1)));
    assert!(matches!(l.status(b), ReplyState::Cancelled));
    assert!(matches!(l.status(c), ReplyState::Closed));
}

#[test]
fn reply_outcomes_map_to_mailbox_errors() {
    assert_eq!(ReplyState::<u64>::Pending.mailbox_error(), None);
    assert_eq!(ReplyState::Replied(1u64).mailbox_error(), None);
    assert_eq!(ReplyState::<u64>::Cancelled.mailbox_error(), Some(MailboxError::Closed));
    assert_eq!(ReplyState::<u64>::Closed.mailbox_error(), Some(MailboxError::Closed));
    assert_eq!(ReplyState::<u64>::TimedOut.mailbox_error(), Some(MailboxError::Timeout));
}

#[test]
fn message_stream_yields_then_ends() {
    let mut s: MessageStream<u64> = MessageStream::new(vec![1, 2], false);
    assert!(matches!(s.poll_next(), Poll::Ready(Some(1))));
    assert!(matches!(s.poll_next(), Poll::Ready(Some(2))));
    assert!(matches!(s.poll_next(), Poll::Pending));
    s.push(3);
    assert!(matches!(s.poll_next(), Poll::Ready(Some(3))));
    s.finish();
    assert!(matches!(s.poll_next(), Poll::Ready(None)));
}

#[test]
fn poll_ready_tells_the_outcomes_apart() {
    assert!(Poll::Ready(5u64).ready());
    assert!(!Poll::<u64>::Pending.ready());
}

#[test]
fn lifecycle_alive_states() {
    assert!(ActorState::Started.alive());
    assert!(ActorState::Running.alive());
    assert!(ActorState::Stopping.alive());
    assert!(!ActorState::Stopped.alive());
}

struct Sink;

impl Actor<u64, u64> for Sink {}

impl WriteHandler<u64, u64, String> for Sink {}

#[test]
fn write_handler_defaults_stop_the_actor() {
    let mut ctx: Context<u64, u64> = Context::new(None);
    let mut w = Sink;
    let verdict = w.error(String::from("broken pipe"), &mut ctx);
    assert_eq!(verdict, Running::Stop);
    assert_eq!(ctx.state(), ActorState::Started);
    w.finished(&mut ctx);
    assert_eq!(ctx.state(), ActorState::Stopping);
}
