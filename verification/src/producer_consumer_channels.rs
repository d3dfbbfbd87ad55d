//! Producers and consumers that talk through a channel: producers send, and
//! consumers receive until every sender is gone and nothing is left.
use std::collections::VecDeque;
use vstd::prelude::*;

verus! {

/// The mathematical state of a channel.
pub struct ChannelView {
    /// The messages sent and not yet received, oldest first.
    pub queue: Seq<usize>,
    /// How many senders are still alive.
    pub senders: nat,
}

/// What a receiver is told.
#[derive(Debug, Clone, Copy, PartialEq, Eq, Structural)]
pub enum RecvOutcome {
    /// The oldest message.
    Message(usize),
    /// Nothing yet, but a sender is alive: the receiver waits.
    Empty,
    /// Nothing left and no sender alive: nothing will ever come.
    Disconnected,
}

/// What `recv` does to a channel in state `v`, and what the receiver is told.
pub open spec fn recv_step(v: ChannelView) -> (ChannelView, RecvOutcome) {
    if v.queue.len() > 0 {
        (ChannelView { queue: v.queue.drop_first(), senders: v.senders }, RecvOutcome::Message(v.queue[0]))
    } else if v.senders == 0 {
        (v, RecvOutcome::Disconnected)
    } else {
        (v, RecvOutcome::Empty)
    }
}

/// The channel after the messages `xs` are sent one after the other.
pub open spec fn send_all(v: ChannelView, xs: Seq<usize>) -> ChannelView {
    ChannelView { queue: v.queue + xs, senders: v.senders }
}

/// The messages that `n` receptions from state `v` deliver, in order.
pub open spec fn received(v: ChannelView, n: nat) -> Seq<usize>
    decreases n,
{
    if n == 0 {
        Seq::empty()
    } else {
        match recv_step(v).1 {
            RecvOutcome::Message(x) => seq![x] + received(recv_step(v).0, (n - 1) as nat),
            _ => Seq::empty(),
        }
    }
}

/// A channel of numbers with its live senders counted; callers share it
/// behind a lock and wait while `recv` answers `RecvOutcome::Empty`.
pub struct Channel {
    queue: VecDeque<usize>,
    senders: usize,
}

impl View for Channel {
    type V = ChannelView;

    closed spec fn view(&self) -> ChannelView {
        ChannelView { queue: self.queue@, senders: self.senders as nat }
    }
}

impl Channel {
    /// An empty channel with one sender.
    pub fn new() -> (c: Channel)
        ensures
            c@.queue == Seq::<usize>::empty(),
            c@.senders == 1,
    {
        Channel { queue: VecDeque::new(), senders: 1 }
    }

    /// One more sender, as when a sender is cloned.
    pub fn add_sender(&mut self)
        requires
            old(self)@.senders < usize::MAX,
        ensures
            final(self)@ == (ChannelView { queue: old(self)@.queue, senders: old(self)@.senders + 1 }),
    {
        self.senders = self.senders + 1;
    }

    /// One sender fewer, as when a sender is dropped.
    pub fn drop_sender(&mut self)
        requires
            old(self)@.senders > 0,
        ensures
            final(self)@ == (ChannelView { queue: old(self)@.queue, senders: (old(self)@.senders - 1) as nat }),
    {
        self.senders = self.senders - 1;
    }

    /// How many senders are alive.
    pub fn senders(&self) -> (n: usize)
        ensures
            n == self@.senders,
    {
        self.senders
    }

    /// Puts `data` at the back of the channel.
    pub fn send(&mut self, data: usize)
        ensures
            final(self)@ == (ChannelView { queue: old(self)@.queue.push(data), senders: old(self)@.senders }),
    {
        self.queue.push_back(data);
    }

    /// Takes the oldest message; otherwise says whether more may come.
    pub fn recv(&mut self) -> (r: RecvOutcome)
        ensures
            (final(self)@, r) == recv_step(old(self)@),
    {
        match self.queue.pop_front() {
            Some(data) => RecvOutcome::Message(data),
            None => {
                if self.senders == 0 {
                    RecvOutcome::Disconnected
                } else {
                    RecvOutcome::Empty
                }
            },
        }
    }
}

/// Receivers get the messages in the order in which they were sent, and
/// none is lost: everything in the channel comes out before it reports
/// that it is disconnected.
pub proof fn lemma_received_in_order(v: ChannelView, xs: Seq<usize>)
    ensures
        received(send_all(v, xs), (v.queue.len() + xs.len()) as nat) == v.queue + xs,
    decreases v.queue.len() + xs.len(),
{
    let w = send_all(v, xs);
    if w.queue.len() > 0 {
        let rest = ChannelView { queue: w.queue.drop_first(), senders: v.senders };
        lemma_received_in_order(rest, Seq::empty());
        assert(send_all(rest, Seq::empty()) =~= rest);
        assert(rest.queue + Seq::<usize>::empty() =~= rest.queue);
        assert(seq![w.queue[0]] + rest.queue =~= w.queue);
    } else {
        assert(v.queue + xs =~= Seq::<usize>::empty());
    }
}

/// A receiver is told that the channel is disconnected only when nothing is
/// left and no sender is alive, and is then told so for good.
pub proof fn lemma_disconnected_is_final(v: ChannelView)
    requires
        recv_step(v).1 == RecvOutcome::Disconnected,
    ensures
        v.queue.len() == 0,
        v.senders == 0,
        recv_step(recv_step(v).0) == recv_step(v),
{
}

/// A call made on the channel under its lock. Adding or dropping a sender
/// leaves the messages as they are (see `add_sender`, `drop_sender`), so
/// only sends and receptions appear here.
pub enum ChannelEvent {
    /// A producer sends `x`.
    Send(usize),
    /// A consumer receives.
    Recv,
}

/// The channel after the calls `evs`, one after the other, from state `v`;
/// with the messages sent and those delivered, in order.
pub open spec fn channel_run(v: ChannelView, evs: Seq<ChannelEvent>) -> (ChannelView, Seq<usize>, Seq<usize>)
    decreases evs.len(),
{
    if evs.len() == 0 {
        (v, Seq::empty(), Seq::empty())
    } else {
        let (w, sent, delivered) = channel_run(v, evs.drop_last());
        match evs.last() {
            ChannelEvent::Send(x) => (
                ChannelView { queue: w.queue.push(x), senders: w.senders },
                sent.push(x),
                delivered,
            ),
            ChannelEvent::Recv => {
                let (w2, r) = recv_step(w);
                (w2, sent, match r { RecvOutcome::Message(x) => delivered.push(x), _ => delivered })
            },
        }
    }
}

/// No message is lost or delivered twice, and messages arrive in the order
/// sent, under any interleaving of sends and receptions: the channel always
/// holds exactly the messages sent and not yet delivered, in order. From an
/// empty channel, `sent == delivered + queue`.
pub proof fn lemma_channel_run_fifo(v: ChannelView, evs: Seq<ChannelEvent>)
    ensures
        ({
            let (w, sent, delivered) = channel_run(v, evs);
            &&& v.queue + sent == delivered + w.queue
            &&& w.senders == v.senders
        }),
    decreases evs.len(),
{
    if evs.len() > 0 {
        lemma_channel_run_fifo(v, evs.drop_last());
        let (w, sent, delivered) = channel_run(v, evs.drop_last());
        match evs.last() {
            ChannelEvent::Send(x) => {
                assert(v.queue + sent.push(x) =~= (v.queue + sent).push(x));
                assert(delivered + w.queue.push(x) =~= (delivered + w.queue).push(x));
            },
            ChannelEvent::Recv => {
                if w.queue.len() > 0 {
                    let x = w.queue[0];
                    assert(delivered.push(x) + w.queue.drop_first() =~= delivered + w.queue);
                }
            },
        }
    } else {
        assert(v.queue + Seq::<usize>::empty() =~= Seq::<usize>::empty() + v.queue);
    }
}

/// When a receiver is told that the channel is disconnected, every message
/// sent has been delivered exactly once: what was delivered is what was sent.
pub proof fn lemma_disconnected_means_all_delivered(sent: Seq<usize>, delivered: Seq<usize>, v: ChannelView)
    requires
        sent == delivered + v.queue,
        recv_step(v).1 == RecvOutcome::Disconnected,
    ensures
        delivered == sent,
{
    assert(delivered + v.queue =~= delivered);
}

/// The channel after `n` receptions from state `v`.
pub open spec fn after_recvs(v: ChannelView, n: nat) -> ChannelView
    decreases n,
{
    if n == 0 {
        v
    } else {
        after_recvs(recv_step(v).0, (n - 1) as nat)
    }
}

/// Once no sender is alive, receivers get every message left, in order, and
/// the reception after that reports the channel disconnected: a consumer's
/// loop ends.
pub proof fn lemma_drains_then_disconnects(v: ChannelView)
    requires
        v.senders == 0,
    ensures
        received(v, v.queue.len()) == v.queue,
        recv_step(after_recvs(v, v.queue.len())).1 == RecvOutcome::Disconnected,
    decreases v.queue.len(),
{
    if v.queue.len() > 0 {
        let w = recv_step(v).0;
        lemma_drains_then_disconnects(w);
        assert(seq![v.queue[0]] + w.queue =~= v.queue);
    }
}

/// A producer that sends `data`.
pub struct Producer {
    pub id: usize,
    pub data: usize,
}

impl Producer {
    pub fn new(id: usize, data: usize) -> (p: Producer)
        ensures
            p.id == id,
            p.data == data,
    {
        Producer { id, data }
    }

    /// Sends this producer's item on `channel`.
    pub fn produce(&self, channel: &mut Channel)
        ensures
            final(channel)@ == (ChannelView { queue: old(channel)@.queue.push(self.data), senders: old(channel)@.senders }),
    {
        channel.send(self.data);
    }
}

/// What a consumer does with what the channel told it.
#[derive(Debug, Clone, Copy, PartialEq, Eq, Structural)]
pub enum ConsumerAction {
    /// Consume this item, then ask again.
    Consume(usize),
    /// Wait for a message, then ask again.
    Wait,
    /// No more data: stop.
    Exit,
}

/// A consumer, who receives until the channel is disconnected.
pub struct Consumer {
    pub id: usize,
}

impl Consumer {
    pub fn new(id: usize) -> (c: Consumer)
        ensures
            c.id == id,
    {
        Consumer { id }
    }

    /// One round of the consumer's loop: receive from `channel` and decide.
    pub fn consume_step(&self, channel: &mut Channel) -> (a: ConsumerAction)
        ensures
            final(channel)@ == recv_step(old(channel)@).0,
            a == match recv_step(old(channel)@).1 {
                RecvOutcome::Message(x) => ConsumerAction::Consume(x),
                RecvOutcome::Empty => ConsumerAction::Wait,
                RecvOutcome::Disconnected => ConsumerAction::Exit,
            },
    {
        match channel.recv() {
            RecvOutcome::Message(x) => ConsumerAction::Consume(x),
            RecvOutcome::Empty => ConsumerAction::Wait,
            RecvOutcome::Disconnected => ConsumerAction::Exit,
        }
    }
}

} // verus!
