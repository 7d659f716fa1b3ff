//! Replies and the one-slot hand-over between the message side and a
//! plugin ([`Combinator`]).
use vstd::prelude::*;
use crate::jid::{Jid, JidView, copy_text};
use crate::sendable::{MessageType, SendMessage};

verus! {

/// The reply to `msg` that carries `body`: no sender or recipient yet, the
/// id, type, subject and thread of `msg`, no delay note.
pub open spec fn reply_to(msg: SendMessage, body: String) -> SendMessage {
    SendMessage {
        from: None,
        to: None,
        id: msg.id,
        mtype: msg.mtype,
        body: Some(body),
        subject: msg.subject,
        thread: msg.thread,
        delay: None,
    }
}

/// `r` is what a plugin sends back for `msg` when its answer is `text`:
/// nothing without a text, else the reply to `msg` that carries the text.
pub open spec fn answers(msg: SendMessage, r: Option<SendMessage>, text: Option<Seq<char>>) -> bool {
    match text {
        None => r is None,
        Some(t) => r matches Some(x) && x.body matches Some(b) && x == reply_to(msg, b) && b@ == t,
    }
}

/// The bare form of an optional ID.
pub open spec fn bare_of(j: Option<Jid>) -> Option<JidView> {
    match j {
        Some(x) => Some(x@.bare()),
        None => None,
    }
}

/// The view of an optional ID.
pub open spec fn jid_view(j: Option<Jid>) -> Option<JidView> {
    match j {
        Some(x) => Some(x@),
        None => None,
    }
}

/// `m` addressed as the answer to `incoming`: in a group chat it goes to
/// the room (the bare ID of the sender) as a group chat message; otherwise
/// it goes back to the sender, with no sender of its own.
pub open spec fn addressed(incoming: SendMessage, m: SendMessage, r: SendMessage) -> bool {
    if incoming.mtype == MessageType::Groupchat {
        &&& r.mtype == MessageType::Groupchat
        &&& jid_view(r.to) == bare_of(incoming.from)
        &&& r.from == m.from
        &&& r.id == m.id
        &&& r.body == m.body
        &&& r.subject == m.subject
        &&& r.thread == m.thread
        &&& r.delay == m.delay
    } else {
        &&& r == SendMessage { to: incoming.from, from: None, ..m }
    }
}

/// The reply to `msg` that carries `body`.
pub fn make_reply(msg: &SendMessage, body: String) -> (r: SendMessage)
    ensures
        r == reply_to(*msg, body),
{
    SendMessage {
        from: None,
        to: None,
        id: copy_text(&msg.id),
        mtype: msg.mtype,
        body: Some(body),
        subject: copy_text(&msg.subject),
        thread: copy_text(&msg.thread),
        delay: None,
    }
}

/// Addresses the plugin's answer `m` to the message `incoming` it answers.
pub fn cleanup(incoming: SendMessage, m: SendMessage) -> (r: SendMessage)
    ensures
        addressed(incoming, m, r),
{
    let mut m = m;
    if incoming.mtype == MessageType::Groupchat {
        m.mtype = MessageType::Groupchat;
        m.to = match incoming.from {
            Some(j) => Some(j.into_bare_jid()),
            None => None,
        };
    } else {
        m.to = incoming.from;
        m.from = None;
    }
    m
}

/// What a message plugin sends for `incoming` when it answered `reply`:
/// nothing when it did not answer, else the answer addressed by [`cleanup`].
pub fn answer_to(incoming: SendMessage, reply: Option<SendMessage>) -> (r: Option<SendMessage>)
    ensures
        reply is None ==> r is None,
        reply matches Some(m) ==> (r matches Some(x) && addressed(incoming, m, x)),
{
    match reply {
        Some(m) => Some(cleanup(incoming, m)),
        None => None,
    }
}

/// The state of a [`Combinator`]: the message waiting for the plugin, and
/// the parked task of each side (a handle of type `T`).
pub struct Slot<T> {
    pub value: Option<SendMessage>,
    pub blocked_send: Option<T>,
    pub blocked_recv: Option<T>,
}

/// What [`Combinator::start_send`] did with an item.
pub enum SendStep<T> {
    /// The item was taken; wake `wake` (the parked receiver), if any.
    Accepted { wake: Option<T> },
    /// The slot is full: the item comes back; the caller parks its task
    /// with [`Combinator::park_sender`] and wakes `wake`, if any.
    Full { item: SendMessage, wake: Option<T> },
}

/// What [`Combinator::poll_complete`] found.
pub enum FlushStep<T> {
    /// Nothing is waiting: the sink is flushed.
    Done,
    /// A message or a sender is waiting; wake `wake` (the receiver), if any.
    Pending { wake: Option<T> },
}

/// What [`Combinator::poll`] found.
pub enum PollStep<T> {
    /// Hand `item` to the plugin; wake `wake` (the parked sender), if any.
    Dispatch { item: SendMessage, wake: Option<T> },
    /// Nothing to hand over: the caller parks its task with
    /// [`Combinator::park_receiver`].
    Empty,
}

/// The slot after `start_send(m)` on `s`.
pub open spec fn after_send<T>(s: Slot<T>, m: SendMessage) -> Slot<T> {
    match s.value {
        None => Slot { value: Some(m), blocked_send: s.blocked_send, blocked_recv: None },
        Some(_) => Slot { blocked_recv: None, ..s },
    }
}

/// The answer of `start_send(m)` on `s`.
pub open spec fn send_step<T>(s: Slot<T>, m: SendMessage) -> SendStep<T> {
    match s.value {
        None => SendStep::Accepted { wake: s.blocked_recv },
        Some(_) => SendStep::Full { item: m, wake: s.blocked_recv },
    }
}

/// The slot after `poll_complete` on `s`.
pub open spec fn after_flush<T>(s: Slot<T>) -> Slot<T> {
    if s.value is None && s.blocked_send is None {
        s
    } else {
        Slot { blocked_recv: None, ..s }
    }
}

/// The answer of `poll_complete` on `s`.
pub open spec fn flush_step<T>(s: Slot<T>) -> FlushStep<T> {
    if s.value is None && s.blocked_send is None {
        FlushStep::Done
    } else {
        FlushStep::Pending { wake: s.blocked_recv }
    }
}

/// The slot after `poll` on `s`.
pub open spec fn after_poll<T>(s: Slot<T>) -> Slot<T> {
    match s.value {
        Some(_) => Slot { value: None, blocked_send: None, blocked_recv: s.blocked_recv },
        None => s,
    }
}

/// The answer of `poll` on `s`.
pub open spec fn poll_step<T>(s: Slot<T>) -> PollStep<T> {
    match s.value {
        Some(m) => PollStep::Dispatch { item: m, wake: s.blocked_send },
        None => PollStep::Empty,
    }
}

/// Hands one message at a time from the message side (a sink) to a plugin
/// (polled as a stream), parking whichever side has to wait.
pub struct Combinator<P, T> {
    blocked_send: Option<T>,
    blocked_recv: Option<T>,
    value: Option<SendMessage>,
    /// The plugin that answers the messages handed over.
    pub inner: P,
}

impl<P, T> Combinator<P, T> {
    /// The state of the hand-over.
    pub closed spec fn slot(&self) -> Slot<T> {
        Slot { value: self.value, blocked_send: self.blocked_send, blocked_recv: self.blocked_recv }
    }

    /// The plugin.
    pub closed spec fn plugin(&self) -> P {
        self.inner
    }

    /// An empty hand-over in front of `inner`.
    pub fn new(inner: P) -> (r: Self)
        ensures
            r.slot() == (Slot::<T> { value: None, blocked_send: None, blocked_recv: None }),
            r.plugin() == inner,
    {
        Combinator { blocked_send: None, blocked_recv: None, value: None, inner }
    }

    /// Offers `m`: taken when the slot is empty, handed back when it is full.
    pub fn start_send(&mut self, m: SendMessage) -> (r: SendStep<T>)
        ensures
            r == send_step(old(self).slot(), m),
            final(self).slot() == after_send(old(self).slot(), m),
            final(self).plugin() == old(self).plugin(),
    {
        match self.value {
            None => {
                self.value = Some(m);
                let wake = self.blocked_recv.take();
                SendStep::Accepted { wake }
            },
            Some(_) => {
                let wake = self.blocked_recv.take();
                SendStep::Full { item: m, wake }
            },
        }
    }

    /// Parks the sending task until the slot is emptied.
    pub fn park_sender(&mut self, task: T)
        ensures
            final(self).slot() == (Slot { blocked_send: Some(task), ..old(self).slot() }),
            final(self).plugin() == old(self).plugin(),
    {
        self.blocked_send = Some(task);
    }

    /// Parks the receiving task until a message arrives.
    pub fn park_receiver(&mut self, task: T)
        ensures
            final(self).slot() == (Slot { blocked_recv: Some(task), ..old(self).slot() }),
            final(self).plugin() == old(self).plugin(),
    {
        self.blocked_recv = Some(task);
    }

    /// Flushing: done when no message and no sender waits.
    pub fn poll_complete(&mut self) -> (r: FlushStep<T>)
        ensures
            r == flush_step(old(self).slot()),
            final(self).slot() == after_flush(old(self).slot()),
            final(self).plugin() == old(self).plugin(),
    {
        if self.value.is_none() && self.blocked_send.is_none() {
            return FlushStep::Done;
        }
        let wake = self.blocked_recv.take();
        FlushStep::Pending { wake }
    }

    /// Takes the waiting message, if any, for the plugin.
    pub fn poll(&mut self) -> (r: PollStep<T>)
        ensures
            r == poll_step(old(self).slot()),
            final(self).slot() == after_poll(old(self).slot()),
            final(self).plugin() == old(self).plugin(),
    {
        match self.value.take() {
            Some(m) => {
                let wake = self.blocked_send.take();
                PollStep::Dispatch { item: m, wake }
            },
            None => PollStep::Empty,
        }
    }
}

/// A reply made with [`make_reply`] and addressed with [`cleanup`] carries
/// its text and the thread of the message it answers, and goes to the room
/// of a group chat message, else back to its sender.
pub proof fn law_reply_goes_back(incoming: SendMessage, body: String, r: SendMessage)
    requires
        addressed(incoming, reply_to(incoming, body), r),
    ensures
        r.body == Some(body),
        r.thread == incoming.thread,
        r.delay is None,
        r.from is None,
        incoming.mtype == MessageType::Groupchat ==> r.mtype == MessageType::Groupchat && jid_view(r.to)
            == bare_of(incoming.from),
        incoming.mtype != MessageType::Groupchat ==> r.to == incoming.from && r.mtype == incoming.mtype,
{
}

/// What a broadcast of one message to all plugins does.
#[derive(PartialEq, Eq, Structural, Clone, Copy, Debug)]
pub enum Broadcast {
    /// Take the message and pass it on to nobody.
    Drop,
    /// Give a copy to every plugin.
    Send,
    /// Hand the message back: not every plugin can take it yet.
    Hold,
}

/// The broadcast of `m` when the plugins' flush results, in order, are
/// `ready`: delayed (stored and re-sent) messages are dropped; otherwise the
/// message goes out when `true` or-ed with the results is true, that is,
/// always.
pub open spec fn broadcast_plan(m: SendMessage, ready: Seq<bool>) -> Broadcast {
    if m.delay is Some {
        Broadcast::Drop
    } else if true || exists|i: int| 0 <= i < ready.len() && ready[i] {
        Broadcast::Send
    } else {
        Broadcast::Hold
    }
}

/// All plugins, each behind its [`Combinator`]: the sinks that take the
/// messages and the streams of their answers.
pub struct CombinatorModule<S, R> {
    pub sinks: Vec<S>,
    pub streams: Vec<R>,
}

impl<S, R> CombinatorModule<S, R> {
    /// The plugins whose halves are `sinks` and `streams`.
    pub fn new_with_modules(sinks: Vec<S>, streams: Vec<R>) -> (r: Self)
        ensures
            r.sinks == sinks,
            r.streams == streams,
    {
        CombinatorModule { sinks, streams }
    }

    /// No plugins.
    pub fn new() -> (r: Self)
        ensures
            r.sinks@.len() == 0,
            r.streams@.len() == 0,
    {
        Self::new_with_modules(Vec::new(), Vec::new())
    }

    /// What to do with `m` when flushing the plugins gave `ready`.
    pub fn plan(&self, m: &SendMessage, ready: &Vec<bool>) -> (r: Broadcast)
        ensures
            r == broadcast_plan(*m, ready@),
    {
        if m.delay.is_some() {
            return Broadcast::Drop;
        }
        if crate::pipes::ready_from(true, ready) {
            Broadcast::Send
        } else {
            Broadcast::Hold
        }
    }
}

/// A message without a delay note is never held back: it goes to every
/// plugin whatever the plugins' flush results.
pub proof fn law_undelayed_messages_always_go_out(m: SendMessage, ready: Seq<bool>)
    requires
        m.delay is None,
    ensures
        broadcast_plan(m, ready) == Broadcast::Send,
{
}

/// Every message with a delay note (room history, offline storage) is
/// dropped, whatever its type and however ready the plugins are.
pub proof fn law_delayed_messages_are_dropped(m: SendMessage, ready: Seq<bool>)
    requires
        m.delay is Some,
    ensures
        broadcast_plan(m, ready) == Broadcast::Drop,
{
}

/// One step on a [`Combinator`]: an offer of a message, a flush, or a poll
/// by the plugin side.
pub enum HandOverStep {
    Offer(SendMessage),
    Flush,
    Take,
}

/// The message waiting in `s`, as a list of at most one.
pub open spec fn waiting<T>(s: Slot<T>) -> Seq<SendMessage> {
    match s.value {
        Some(m) => seq![m],
        None => Seq::empty(),
    }
}

/// The slot after the steps `steps`, the messages taken in, and the
/// messages handed to the plugin, in order.
pub open spec fn hand_over<T>(s: Slot<T>, steps: Seq<HandOverStep>) -> (Slot<T>, Seq<SendMessage>, Seq<SendMessage>)
    decreases steps.len(),
{
    if steps.len() == 0 {
        (s, Seq::empty(), Seq::empty())
    } else {
        match steps[0] {
            HandOverStep::Offer(m) => {
                let taken: Seq<SendMessage> = if s.value is None { seq![m] } else { Seq::empty() };
                let rest = hand_over(after_send(s, m), steps.drop_first());
                (rest.0, taken + rest.1, rest.2)
            },
            HandOverStep::Flush => hand_over(after_flush(s), steps.drop_first()),
            HandOverStep::Take => {
                let given = waiting(s);
                let rest = hand_over(after_poll(s), steps.drop_first());
                (rest.0, rest.1, given + rest.2)
            },
        }
    }
}

/// Over any run of steps, the plugin is handed exactly the messages that
/// were taken in (those offered while the slot was empty), once each and
/// in the order they were taken, except the one still waiting at the end.
pub proof fn law_hand_over_keeps_order<T>(s: Slot<T>, steps: Seq<HandOverStep>)
    ensures
        waiting(s) + hand_over(s, steps).1 == hand_over(s, steps).2 + waiting(hand_over(s, steps).0),
    decreases steps.len(),
{
    if steps.len() > 0 {
        match steps[0] {
            HandOverStep::Offer(m) => {
                law_hand_over_keeps_order(after_send(s, m), steps.drop_first());
                let rest = hand_over(after_send(s, m), steps.drop_first());
                if s.value is None {
                    assert(waiting(s) + (seq![m] + rest.1) =~= waiting(after_send(s, m)) + rest.1);
                } else {
                    assert(waiting(after_send(s, m)) == waiting(s));
                    assert(Seq::<SendMessage>::empty() + rest.1 =~= rest.1);
                }
            },
            HandOverStep::Flush => {
                law_hand_over_keeps_order(after_flush(s), steps.drop_first());
                assert(waiting(after_flush(s)) == waiting(s));
            },
            HandOverStep::Take => {
                law_hand_over_keeps_order(after_poll(s), steps.drop_first());
                let rest = hand_over(after_poll(s), steps.drop_first());
                assert(waiting(after_poll(s)) =~= Seq::<SendMessage>::empty());
                assert(Seq::<SendMessage>::empty() + rest.1 =~= rest.1);
                assert(waiting(s) + rest.1 =~= (waiting(s) + rest.2) + waiting(rest.0));
            },
        }
    }
}

/// A message taken into an empty slot is the next one handed to the plugin,
/// and the slot is empty again after that.
pub proof fn law_accepted_message_is_dispatched_next<T>(s: Slot<T>, m: SendMessage)
    requires
        s.value is None,
    ensures
        send_step(s, m) matches SendStep::Accepted { .. },
        poll_step(after_send(s, m)) matches PollStep::Dispatch { item, .. } && item == m,
        after_poll(after_send(s, m)).value is None,
{
}

/// A full slot hands the offered message back unchanged and keeps the one
/// it holds.
pub proof fn law_full_slot_returns_the_offer<T>(s: Slot<T>, m: SendMessage)
    requires
        s.value is Some,
    ensures
        send_step(s, m) matches SendStep::Full { item, .. } && item == m,
        after_send(s, m).value == s.value,
{
}

/// Flushing is done exactly when no message and no sender is waiting, and
/// it never changes the message or the parked sender.
pub proof fn law_flush_done_iff_idle<T>(s: Slot<T>)
    ensures
        (flush_step(s) is Done) <==> (s.value is None && s.blocked_send is None),
        after_flush(s).value == s.value,
        after_flush(s).blocked_send == s.blocked_send,
{
}

} // verus!
