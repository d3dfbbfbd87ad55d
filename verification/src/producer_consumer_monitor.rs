//! The bounded buffer: producers add items while it has room, consumers take
//! the oldest item while it is not empty.
use std::collections::VecDeque;
use vstd::prelude::*;

verus! {

/// The mathematical state of a bounded buffer.
pub struct BufferView {
    /// The items in the buffer, oldest first.
    pub items: Seq<usize>,
    /// How many items the buffer holds at most.
    pub capacity: nat,
}

/// What `producer_access_buffer` does to a buffer in state `v` for item `data`,
/// and whether the item went in (otherwise the producer waits).
pub open spec fn produce_step(v: BufferView, data: usize) -> (BufferView, bool) {
    if v.items.len() == v.capacity {
        (v, false)
    } else {
        (BufferView { items: v.items.push(data), capacity: v.capacity }, true)
    }
}

/// What `consumer_access_buffer` does to a buffer in state `v`, and the item
/// taken (`None`: the buffer is empty and the consumer waits).
pub open spec fn consume_step(v: BufferView) -> (BufferView, Option<usize>) {
    if v.items.len() == 0 {
        (v, None)
    } else {
        (BufferView { items: v.items.drop_first(), capacity: v.capacity }, Some(v.items[0]))
    }
}

/// The buffer after the items `xs` are produced one after the other.
pub open spec fn produce_all(v: BufferView, xs: Seq<usize>) -> BufferView
    decreases xs.len(),
{
    if xs.len() == 0 {
        v
    } else {
        produce_step(produce_all(v, xs.drop_last()), xs.last()).0
    }
}

/// The items that `n` consumptions from state `v` take, in order.
pub open spec fn consumed(v: BufferView, n: nat) -> Seq<usize>
    decreases n,
{
    if n == 0 {
        Seq::empty()
    } else {
        match consume_step(v).1 {
            Some(x) => seq![x] + consumed(consume_step(v).0, (n - 1) as nat),
            None => Seq::empty(),
        }
    }
}

/// The buffer; producers and consumers share it behind a lock and wait on
/// "not full" and "not empty" conditions.
pub struct Buffer {
    buffer: VecDeque<usize>,
    capacity: usize,
}

impl View for Buffer {
    type V = BufferView;

    closed spec fn view(&self) -> BufferView {
        BufferView { items: self.buffer@, capacity: self.capacity as nat }
    }
}

impl Buffer {
    /// The buffer never holds more than its capacity.
    pub open spec fn wf(&self) -> bool {
        self@.items.len() <= self@.capacity
    }

    /// An empty buffer that holds at most `capacity` items.
    pub fn new(capacity: usize) -> (b: Buffer)
        ensures
            b.wf(),
            b@.items == Seq::<usize>::empty(),
            b@.capacity == capacity,
    {
        Buffer { buffer: VecDeque::new(), capacity }
    }

    /// The items in the buffer, oldest first.
    pub fn items(&self) -> (r: &VecDeque<usize>)
        ensures
            r@ == self@.items,
    {
        &self.buffer
    }

    /// A producer offers `data`: it goes in at the back (`true`) unless the
    /// buffer is full, in which case nothing changes and the producer waits.
    pub fn producer_access_buffer(&mut self, data: usize) -> (stored: bool)
        requires
            old(self).wf(),
        ensures
            final(self).wf(),
            (final(self)@, stored) == produce_step(old(self)@, data),
    {
        if self.buffer.len() == self.capacity {
            return false;
        }
        self.buffer.push_back(data);
        true
    }

    /// A consumer takes the oldest item; `None` when the buffer is empty and
    /// the consumer waits.
    pub fn consumer_access_buffer(&mut self) -> (popped: Option<usize>)
        requires
            old(self).wf(),
        ensures
            final(self).wf(),
            (final(self)@, popped) == consume_step(old(self)@),
    {
        self.buffer.pop_front()
    }
}

/// Items produced while the buffer has room go in behind those already there.
pub proof fn lemma_produce_all_appends(v: BufferView, xs: Seq<usize>)
    requires
        v.items.len() + xs.len() <= v.capacity,
    ensures
        produce_all(v, xs) == (BufferView { items: v.items + xs, capacity: v.capacity }),
    decreases xs.len(),
{
    if xs.len() > 0 {
        lemma_produce_all_appends(v, xs.drop_last());
        assert(v.items + xs =~= (v.items + xs.drop_last()).push(xs.last()));
    } else {
        assert(v.items + xs =~= v.items);
    }
}

/// Consumers take the items in the order in which the buffer holds them.
pub proof fn lemma_consumed_in_order(v: BufferView)
    ensures
        consumed(v, v.items.len()) == v.items,
    decreases v.items.len(),
{
    if v.items.len() > 0 {
        let w = consume_step(v).0;
        lemma_consumed_in_order(w);
        assert(seq![v.items[0]] + w.items =~= v.items);
    }
}

/// What consumers take out of an empty buffer is what producers put in, in
/// the same order, as long as the items fit.
pub proof fn lemma_fifo(capacity: nat, xs: Seq<usize>)
    requires
        xs.len() <= capacity,
    ensures
        consumed(produce_all(BufferView { items: Seq::empty(), capacity }, xs), xs.len()) == xs,
{
    let v = BufferView { items: Seq::<usize>::empty(), capacity };
    lemma_produce_all_appends(v, xs);
    assert(v.items + xs =~= xs);
    lemma_consumed_in_order(produce_all(v, xs));
}

/// A call made on the buffer under its lock.
pub enum BufferEvent {
    /// A producer offers `x`.
    Produce(usize),
    /// A consumer asks for an item.
    Consume,
}

/// The buffer after the calls `evs`, one after the other, from state `v`;
/// with the items that went in and those that came out, in order.
pub open spec fn buffer_run(v: BufferView, evs: Seq<BufferEvent>) -> (BufferView, Seq<usize>, Seq<usize>)
    decreases evs.len(),
{
    if evs.len() == 0 {
        (v, Seq::empty(), Seq::empty())
    } else {
        let (w, stored, taken) = buffer_run(v, evs.drop_last());
        match evs.last() {
            BufferEvent::Produce(x) => {
                let (w2, ok) = produce_step(w, x);
                (w2, if ok { stored.push(x) } else { stored }, taken)
            },
            BufferEvent::Consume => {
                let (w2, r) = consume_step(w);
                (w2, stored, match r { Some(x) => taken.push(x), None => taken })
            },
        }
    }
}

/// First in, first out, under any interleaving of productions and
/// consumptions: the buffer always holds exactly the items that went in and
/// have not come out, in the order in which they went in; consumers take
/// each stored item once, in that order; and the buffer never exceeds its
/// capacity. From an empty buffer, `stored == taken + items`.
pub proof fn lemma_buffer_run_fifo(v: BufferView, evs: Seq<BufferEvent>)
    requires
        v.items.len() <= v.capacity,
    ensures
        ({
            let (w, stored, taken) = buffer_run(v, evs);
            &&& v.items + stored == taken + w.items
            &&& w.items.len() <= w.capacity
            &&& w.capacity == v.capacity
        }),
    decreases evs.len(),
{
    if evs.len() > 0 {
        lemma_buffer_run_fifo(v, evs.drop_last());
        let (w, stored, taken) = buffer_run(v, evs.drop_last());
        match evs.last() {
            BufferEvent::Produce(x) => {
                assert(v.items + stored.push(x) =~= (v.items + stored).push(x));
                assert(taken + w.items.push(x) =~= (taken + w.items).push(x));
            },
            BufferEvent::Consume => {
                if w.items.len() > 0 {
                    let x = w.items[0];
                    assert(taken.push(x) + w.items.drop_first() =~= taken + w.items);
                }
            },
        }
    } else {
        assert(v.items + Seq::<usize>::empty() =~= Seq::<usize>::empty() + v.items);
    }
}

/// A producer that offers the same item each time.
pub struct Producer {
    pub data: usize,
}

impl Producer {
    pub fn new(data: usize) -> (p: Producer)
        ensures
            p.data == data,
    {
        Producer { data }
    }

    /// Offers this producer's item to `buffer`; `false` when the buffer is
    /// full and the producer must wait.
    pub fn produce(&self, buffer: &mut Buffer) -> (stored: bool)
        requires
            old(buffer).wf(),
        ensures
            final(buffer).wf(),
            (final(buffer)@, stored) == produce_step(old(buffer)@, self.data),
    {
        buffer.producer_access_buffer(self.data)
    }
}

/// A consumer, who takes items from the buffer.
pub struct Consumer {}

impl Consumer {
    pub fn new() -> (c: Consumer) {
        Consumer {}
    }

    /// Takes the oldest item from `buffer`; `None` when it is empty and the
    /// consumer must wait.
    pub fn consume(&self, buffer: &mut Buffer) -> (consumed: Option<usize>)
        requires
            old(buffer).wf(),
        ensures
            final(buffer).wf(),
            (final(buffer)@, consumed) == consume_step(old(buffer)@),
    {
        buffer.consumer_access_buffer()
    }
}

} // verus!
