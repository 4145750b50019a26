//! End-to-end scenarios driving the actor engine through its public API.

use actorlite::context::{Actor, Context, Handler, MessageResponse};
use actorlite::contextitems::{ActorWaitItem, MessageStream, WaitFuture};
use actorlite::lifecycle::{ActorState, Running};
use actorlite::mailbox::SendError;
use actorlite::poll::Poll;
use actorlite::registry::SpawnHandle;
use actorlite::replies::ReplyState;

struct Echo;

impl Actor<String, String> for Echo {}

impl Handler<String, String> for Echo {
    fn handle(&mut self, msg: String, _ctx: &mut Context<String, String>) -> MessageResponse<String> {
        MessageResponse::Value(msg)
    }
}

#[test]
fn echo_send_reply() {
    let mut ctx: Context<String, String> = Context::new(None);
    let mut act = Echo;
    let t = ctx.send(String::from("hi")).unwrap();
    let p = ctx.poll_once(&mut act, 0);
    assert!(matches!(p, Poll::Pending));
    assert!(matches!(ctx.reply_status(t), ReplyState::Replied(s) if s == "hi"));
}

struct Recorder {
    seen: Vec<u64>,
}

impl Actor<u64, u64> for Recorder {}

impl Handler<u64, u64> for Recorder {
    fn handle(&mut self, msg: u64, ctx: &mut Context<u64, u64>) -> MessageResponse<u64> {
        let _ = msg;
        self.seen.push(ctx.now());
        MessageResponse::Value(0)
    }
}

#[test]
fn delayed_notify_fires_at_deadline() {
    let mut ctx: Context<u64, u64> = Context::new(None);
    let mut act = Recorder { seen: Vec::new() };
    let h = ctx.notify_later(1, 50);
    assert!(h.is_some());
    let _ = ctx.poll_once(&mut act, 0);
    assert!(act.seen.is_empty());
    let _ = ctx.poll_once(&mut act, 10);
    assert!(act.seen.is_empty());
    let _ = ctx.poll_once(&mut act, 50);
    assert_eq!(act.seen, vec![50]);
    let _ = ctx.poll_once(&mut act, 60);
    assert_eq!(act.seen, vec![50]);
}

enum Msg {
    Num(u64),
    Read,
}

struct Acc {
    total: u64,
}

impl Actor<Msg, u64> for Acc {}

impl Handler<Msg, u64> for Acc {
    fn handle(&mut self, msg: Msg, _ctx: &mut Context<Msg, u64>) -> MessageResponse<u64> {
        match msg {
            Msg::Num(n) => {
                self.total += n;
                MessageResponse::Value(0)
            }
            Msg::Read => MessageResponse::Value(self.total),
        }
    }
}

#[test]
fn stream_drain_accumulates_before_read() {
    let mut ctx: Context<Msg, u64> = Context::new(None);
    let mut act = Acc { total: 0 };
    let items = vec![Msg::Num(1), Msg::Num(2), Msg::Num(3)];
    let h = ctx.add_stream(MessageStream::new(items, true));
    assert!(h.is_some());
    let t = ctx.send(Msg::Read).unwrap();
    let _ = ctx.poll_once(&mut act, 0);
    assert_eq!(act.total, 6);
    assert!(matches!(ctx.reply_status(t), ReplyState::Replied(6)));
}

enum SlowFast {
    Slow,
    Fast,
}

struct Waiter {
    fast_at: Option<u64>,
}

impl Actor<SlowFast, u64> for Waiter {}

impl Handler<SlowFast, u64> for Waiter {
    fn handle(&mut self, msg: SlowFast, ctx: &mut Context<SlowFast, u64>) -> MessageResponse<u64> {
        match msg {
            SlowFast::Slow => {
                ctx.wait(ActorWaitItem::new(WaitFuture::Timer { fire_at: 100 }));
                MessageResponse::Value(0)
            }
            SlowFast::Fast => {
                self.fast_at = Some(ctx.now());
                MessageResponse::Value(0)
            }
        }
    }
}

#[test]
fn wait_excludes_dispatch_until_timer() {
    let mut ctx: Context<SlowFast, u64> = Context::new(None);
    let mut act = Waiter { fast_at: None };
    ctx.do_send(SlowFast::Slow).unwrap();
    ctx.do_send(SlowFast::Fast).unwrap();
    let _ = ctx.poll_once(&mut act, 0);
    assert_eq!(act.fast_at, None);
    assert!(ctx.waiting());
    let _ = ctx.poll_once(&mut act, 50);
    assert_eq!(act.fast_at, None);
    let _ = ctx.poll_once(&mut act, 100);
    assert_eq!(act.fast_at, Some(100));
    assert!(!ctx.waiting());
}

#[test]
fn external_wait_completes_on_reactor_signal() {
    let mut ctx: Context<SlowFast, u64> = Context::new(None);
    let mut act = Waiter { fast_at: None };
    let _ = ctx.poll_once(&mut act, 0);
    ctx.wait(ActorWaitItem::new(WaitFuture::External { done: false }));
    ctx.do_send(SlowFast::Fast).unwrap();
    let _ = ctx.poll_once(&mut act, 1);
    assert_eq!(act.fast_at, None);
    ctx.complete_wait_head();
    let _ = ctx.poll_once(&mut act, 2);
    assert_eq!(act.fast_at, Some(2));
}

#[test]
fn cancel_delayed_callback_never_fires() {
    let mut ctx: Context<u64, u64> = Context::new(None);
    let mut act = Recorder { seen: Vec::new() };
    let h = ctx.run_later(200).unwrap();
    let _ = ctx.poll_once(&mut act, 0);
    ctx.cancel(h);
    let _ = ctx.poll_once(&mut act, 10);
    let _ = ctx.poll_once(&mut act, 300);
    assert!(ctx.fired().is_empty());
}

#[test]
fn uncancelled_callback_fires_once_due() {
    let mut ctx: Context<u64, u64> = Context::new(None);
    let mut act = Recorder { seen: Vec::new() };
    let h = ctx.run_later(200).unwrap();
    let _ = ctx.poll_once(&mut act, 10);
    assert!(ctx.fired().is_empty());
    let _ = ctx.poll_once(&mut act, 250);
    assert_eq!(ctx.fired().as_slice(), &[h.id]);
}

#[test]
fn delayed_deadline_saturates_at_the_top_of_the_clock() {
    let mut ctx: Context<u64, u64> = Context::new(None);
    let mut act = Recorder { seen: Vec::new() };
    let _ = ctx.poll_once(&mut act, 10);
    let h = ctx.notify_later(1, u64::MAX);
    assert!(h.is_some());
    let _ = ctx.poll_once(&mut act, u64::MAX - 1);
    assert!(act.seen.is_empty());
    let _ = ctx.poll_once(&mut act, u64::MAX);
    assert_eq!(act.seen, vec![u64::MAX]);
}

#[test]
fn bounded_mailbox_backpressure() {
    let mut ctx: Context<u64, u64> = Context::new(Some(1));
    let mut act = Recorder { seen: Vec::new() };
    assert!(ctx.try_send(1).is_ok());
    assert_eq!(ctx.try_send(2), Err(SendError::Full));
    let _ = ctx.poll_once(&mut act, 0);
    assert!(ctx.try_send(2).is_ok());
}

struct Collector {
    order: Vec<u64>,
}

impl Actor<u64, u64> for Collector {}

impl Handler<u64, u64> for Collector {
    fn handle(&mut self, msg: u64, _ctx: &mut Context<u64, u64>) -> MessageResponse<u64> {
        self.order.push(msg);
        MessageResponse::Value(msg)
    }
}

#[test]
fn fifo_dispatch_matches_send_order() {
    let mut ctx: Context<u64, u64> = Context::new(None);
    let mut act = Collector { order: Vec::new() };
    ctx.do_send(1).unwrap();
    ctx.do_send(2).unwrap();
    ctx.do_send(3).unwrap();
    let _ = ctx.poll_once(&mut act, 0);
    assert_eq!(act.order, vec![1, 2, 3]);
}

#[test]
fn dispatch_stops_at_the_fairness_cap() {
    let mut ctx: Context<u64, u64> = Context::new(None);
    let mut act = Collector { order: Vec::new() };
    for i in 0..20u64 {
        ctx.do_send(i).unwrap();
    }
    let _ = ctx.poll_once(&mut act, 0);
    assert_eq!(act.order.len(), 16);
    let _ = ctx.poll_once(&mut act, 1);
    assert_eq!(act.order.len(), 20);
    let expected: Vec<u64> = (0..20).collect();
    assert_eq!(act.order, expected);
}

#[test]
fn notify_runs_before_queued_envelopes() {
    let mut ctx: Context<u64, u64> = Context::new(None);
    let mut act = Collector { order: Vec::new() };
    ctx.do_send(7).unwrap();
    ctx.notify(5);
    let _ = ctx.poll_once(&mut act, 0);
    assert_eq!(act.order, vec![5, 7]);
}

struct Hooky {
    started: u32,
    stopping: u32,
    stopped: u32,
    continue_once: bool,
}

impl Actor<u64, u64> for Hooky {
    fn started(&mut self, _ctx: &mut Context<u64, u64>) {
        self.started += 1;
    }

    fn stopping(&mut self, _ctx: &mut Context<u64, u64>) -> Running {
        self.stopping += 1;
        if self.continue_once && self.stopping == 1 {
            Running::Continue
        } else {
            Running::Stop
        }
    }

    fn stopped(&mut self, _ctx: &mut Context<u64, u64>) {
        self.stopped += 1;
    }
}

impl Handler<u64, u64> for Hooky {
    fn handle(&mut self, _msg: u64, _ctx: &mut Context<u64, u64>) -> MessageResponse<u64> {
        MessageResponse::Value(0)
    }
}

#[test]
fn started_fires_exactly_once() {
    let mut ctx: Context<u64, u64> = Context::new(None);
    let mut act = Hooky { started: 0, stopping: 0, stopped: 0, continue_once: false };
    let _ = ctx.poll_once(&mut act, 0);
    assert_eq!(act.started, 1);
    let _ = ctx.poll_once(&mut act, 1);
    let _ = ctx.poll_once(&mut act, 2);
    assert_eq!(act.started, 1);
}

#[test]
fn stop_runs_stopping_then_stopped_once() {
    let mut ctx: Context<u64, u64> = Context::new(None);
    let mut act = Hooky { started: 0, stopping: 0, stopped: 0, continue_once: false };
    let _ = ctx.poll_once(&mut act, 0);
    ctx.stop();
    let p = ctx.poll_once(&mut act, 1);
    assert!(matches!(p, Poll::Ready(())));
    assert_eq!(act.stopping, 1);
    assert_eq!(act.stopped, 1);
    assert_eq!(ctx.state(), ActorState::Stopped);
    let p2 = ctx.poll_once(&mut act, 2);
    assert!(matches!(p2, Poll::Ready(())));
    assert_eq!(act.stopped, 1);
}

#[test]
fn stopping_continue_cancels_the_stop() {
    let mut ctx: Context<u64, u64> = Context::new(None);
    let mut act = Hooky { started: 0, stopping: 0, stopped: 0, continue_once: true };
    let _ = ctx.poll_once(&mut act, 0);
    ctx.stop();
    let p = ctx.poll_once(&mut act, 1);
    assert!(matches!(p, Poll::Pending));
    assert_eq!(act.stopping, 1);
    assert_eq!(act.stopped, 0);
    assert_eq!(ctx.state(), ActorState::Running);
    ctx.stop();
    let p2 = ctx.poll_once(&mut act, 2);
    assert!(matches!(p2, Poll::Ready(())));
    assert_eq!(act.stopping, 2);
    assert_eq!(act.stopped, 1);
}

struct Defer;

impl Actor<u64, u64> for Defer {}

impl Handler<u64, u64> for Defer {
    fn handle(&mut self, _msg: u64, _ctx: &mut Context<u64, u64>) -> MessageResponse<u64> {
        MessageResponse::Future
    }
}

#[test]
fn deferred_reply_resolves_on_completion() {
    let mut ctx: Context<u64, u64> = Context::new(None);
    let mut act = Defer;
    let t = ctx.send(9).unwrap();
    let _ = ctx.poll_once(&mut act, 0);
    assert!(matches!(ctx.reply_status(t), ReplyState::Pending));
    let done = ctx.complete_response(SpawnHandle { id: 0 }, 42);
    assert!(done);
    assert!(matches!(ctx.reply_status(t), ReplyState::Replied(42)));
}

#[test]
fn cancelled_adapter_signals_requester() {
    let mut ctx: Context<u64, u64> = Context::new(None);
    let mut act = Defer;
    let t = ctx.send(9).unwrap();
    let _ = ctx.poll_once(&mut act, 0);
    ctx.cancel(SpawnHandle { id: 0 });
    let _ = ctx.poll_once(&mut act, 1);
    assert!(matches!(ctx.reply_status(t), ReplyState::Cancelled));
}

#[test]
fn stop_closes_pending_replies() {
    let mut ctx: Context<SlowFast, u64> = Context::new(None);
    let mut act = Waiter { fast_at: None };
    ctx.do_send(SlowFast::Slow).unwrap();
    let t = ctx.send(SlowFast::Fast).unwrap();
    ctx.stop();
    let p = ctx.poll_once(&mut act, 0);
    assert!(matches!(p, Poll::Ready(())));
    assert_eq!(act.fast_at, None);
    assert!(matches!(ctx.reply_status(t), ReplyState::Closed));
    assert_eq!(ctx.try_send(SlowFast::Fast), Err(SendError::Closed));
    assert!(matches!(ctx.do_send(SlowFast::Fast), Err(SendError::Closed)));
}

#[test]
fn timed_out_reply_ignores_late_value() {
    let mut ctx: Context<u64, u64> = Context::new(None);
    let mut act = Collector { order: Vec::new() };
    let t = ctx.send(5).unwrap();
    ctx.time_out_reply(t);
    assert!(matches!(ctx.reply_status(t), ReplyState::TimedOut));
    let _ = ctx.poll_once(&mut act, 0);
    assert_eq!(act.order, vec![5]);
    assert!(matches!(ctx.reply_status(t), ReplyState::TimedOut));
}

struct StreamWaiter {
    order: Vec<(u64, u64)>,
}

impl Actor<u64, u64> for StreamWaiter {}

impl Handler<u64, u64> for StreamWaiter {
    fn handle(&mut self, msg: u64, ctx: &mut Context<u64, u64>) -> MessageResponse<u64> {
        self.order.push((msg, ctx.now()));
        if msg == 1 {
            ctx.wait(ActorWaitItem::new(WaitFuture::Timer { fire_at: 50 }));
        }
        MessageResponse::Value(0)
    }
}

#[test]
fn stream_yields_when_handler_waits() {
    let mut ctx: Context<u64, u64> = Context::new(None);
    let mut act = StreamWaiter { order: Vec::new() };
    let _ = ctx.add_stream(MessageStream::new(vec![1, 2], true));
    let _ = ctx.poll_once(&mut act, 0);
    assert_eq!(act.order, vec![(1, 0)]);
    let _ = ctx.poll_once(&mut act, 10);
    assert_eq!(act.order, vec![(1, 0)]);
    let _ = ctx.poll_once(&mut act, 50);
    assert_eq!(act.order, vec![(1, 0), (2, 50)]);
}

#[test]
fn cancel_is_idempotent_on_the_context() {
    let mut ctx: Context<u64, u64> = Context::new(None);
    let mut act = Recorder { seen: Vec::new() };
    let h = ctx.notify_later(1, 100).unwrap();
    ctx.cancel(h);
    ctx.cancel(h);
    let _ = ctx.poll_once(&mut act, 0);
    let _ = ctx.poll_once(&mut act, 200);
    assert!(act.seen.is_empty());
    let fresh = ctx.notify_later(2, 10).unwrap();
    assert!(fresh.id > h.id);
    let _ = ctx.poll_once(&mut act, 210);
    assert_eq!(act.seen, vec![210]);
}
