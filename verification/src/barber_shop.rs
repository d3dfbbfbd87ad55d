//! The sleeping barber: customers take a chair in the waiting room if one is
//! free and are served in the order in which they arrived.
use std::collections::VecDeque;
use vstd::prelude::*;

verus! {

/// The mathematical state of a barber shop.
pub struct ShopView {
    /// The customers in the waiting room, first come first.
    pub room: Seq<usize>,
    /// The number of chairs in the waiting room.
    pub chairs: nat,
}

/// What `enter_waiting_room` does to a shop in state `v` when customer `c`
/// arrives, and whether `c` gets a chair.
pub open spec fn enter_step(v: ShopView, c: usize) -> (ShopView, bool) {
    if v.room.len() >= v.chairs {
        (v, false)
    } else {
        (ShopView { room: v.room.push(c), chairs: v.chairs }, true)
    }
}

/// What `exit_waiting_room` does to a shop in state `v`, and which customer
/// the barber takes (`None`: the room is empty and the barber sleeps).
pub open spec fn exit_step(v: ShopView) -> (ShopView, Option<usize>) {
    if v.room.len() == 0 {
        (v, None)
    } else {
        (ShopView { room: v.room.drop_first(), chairs: v.chairs }, Some(v.room[0]))
    }
}

/// The shop after the customers `cs` arrive one after the other.
pub open spec fn enter_all(v: ShopView, cs: Seq<usize>) -> ShopView
    decreases cs.len(),
{
    if cs.len() == 0 {
        v
    } else {
        enter_step(enter_all(v, cs.drop_last()), cs.last()).0
    }
}

/// The customers the barber takes, in order, in `n` turns from state `v`.
pub open spec fn served(v: ShopView, n: nat) -> Seq<usize>
    decreases n,
{
    if n == 0 {
        Seq::empty()
    } else {
        match exit_step(v).1 {
            Some(c) => seq![c] + served(exit_step(v).0, (n - 1) as nat),
            None => Seq::empty(),
        }
    }
}

/// The waiting room; callers share the shop behind a lock.
pub struct BarberShop {
    waiting_room: VecDeque<usize>,
    waiting_room_semaphore: usize,
}

impl View for BarberShop {
    type V = ShopView;

    closed spec fn view(&self) -> ShopView {
        ShopView { room: self.waiting_room@, chairs: self.waiting_room_semaphore as nat }
    }
}

impl BarberShop {
    /// The shop never seats more customers than it has chairs.
    pub open spec fn wf(&self) -> bool {
        self@.room.len() <= self@.chairs
    }

    /// A shop with `n_of_chairs` chairs and nobody waiting.
    pub fn new(n_of_chairs: usize) -> (s: BarberShop)
        ensures
            s.wf(),
            s@.room == Seq::<usize>::empty(),
            s@.chairs == n_of_chairs,
    {
        BarberShop { waiting_room: VecDeque::new(), waiting_room_semaphore: n_of_chairs }
    }

    /// The customers waiting, first come first.
    pub fn waiting_room(&self) -> (r: &VecDeque<usize>)
        ensures
            r@ == self@.room,
    {
        &self.waiting_room
    }

    /// Customer `customer` arrives: he takes a chair (`true`) unless all are
    /// taken, in which case he leaves and nothing changes (`false`).
    pub fn enter_waiting_room(&mut self, customer: usize) -> (seated: bool)
        requires
            old(self).wf(),
        ensures
            final(self).wf(),
            (final(self)@, seated) == enter_step(old(self)@, customer),
    {
        if self.waiting_room.len() >= self.waiting_room_semaphore {
            return false;
        }
        self.waiting_room.push_back(customer);
        true
    }

    /// The barber takes the customer who has waited longest; `None` when the
    /// room is empty and the barber goes to sleep.
    pub fn exit_waiting_room(&mut self) -> (next: Option<usize>)
        requires
            old(self).wf(),
        ensures
            final(self).wf(),
            (final(self)@, next) == exit_step(old(self)@),
    {
        self.waiting_room.pop_front()
    }
}

/// Customers who find a free chair are queued behind those already waiting.
pub proof fn lemma_enter_all_appends(v: ShopView, cs: Seq<usize>)
    requires
        v.room.len() + cs.len() <= v.chairs,
    ensures
        enter_all(v, cs) == (ShopView { room: v.room + cs, chairs: v.chairs }),
    decreases cs.len(),
{
    if cs.len() > 0 {
        lemma_enter_all_appends(v, cs.drop_last());
        assert(v.room + cs =~= (v.room + cs.drop_last()).push(cs.last()));
    } else {
        assert(v.room + cs =~= v.room);
    }
}

/// The barber takes the waiting customers in the order in which they sit.
pub proof fn lemma_served_in_order(v: ShopView)
    ensures
        served(v, v.room.len()) == v.room,
    decreases v.room.len(),
{
    if v.room.len() > 0 {
        let w = exit_step(v).0;
        lemma_served_in_order(w);
        assert(seq![v.room[0]] + w.room =~= v.room);
    }
}

/// First come, first served: when customers arrive at an empty shop with
/// enough chairs, the barber takes them in the order in which they arrived.
pub proof fn lemma_first_come_first_served(chairs: nat, cs: Seq<usize>)
    requires
        cs.len() <= chairs,
    ensures
        served(enter_all(ShopView { room: Seq::empty(), chairs }, cs), cs.len()) == cs,
{
    let v = ShopView { room: Seq::<usize>::empty(), chairs };
    lemma_enter_all_appends(v, cs);
    assert(v.room + cs =~= cs);
    lemma_served_in_order(enter_all(v, cs));
}

/// Something that happens in the shop under its lock.
pub enum ShopEvent {
    /// Customer `c` arrives and asks for a chair.
    Arrive(usize),
    /// The barber asks for the next customer.
    Serve,
}

/// The shop after the events `evs`, one after the other, from state `v`;
/// with the customers who got a chair and those the barber took, in order.
pub open spec fn shop_run(v: ShopView, evs: Seq<ShopEvent>) -> (ShopView, Seq<usize>, Seq<usize>)
    decreases evs.len(),
{
    if evs.len() == 0 {
        (v, Seq::empty(), Seq::empty())
    } else {
        let (w, seated, taken) = shop_run(v, evs.drop_last());
        match evs.last() {
            ShopEvent::Arrive(c) => {
                let (w2, ok) = enter_step(w, c);
                (w2, if ok { seated.push(c) } else { seated }, taken)
            },
            ShopEvent::Serve => {
                let (w2, r) = exit_step(w);
                (w2, seated, match r { Some(c) => taken.push(c), None => taken })
            },
        }
    }
}

/// First come, first served, under any interleaving of arrivals and
/// services: the waiting room always holds exactly the customers who got a
/// chair and were not yet taken, in the order in which they sat down, the
/// barber takes them in that order, and the room never exceeds its chairs.
/// From an empty shop, `seated == taken + room`.
pub proof fn lemma_shop_run_fifo(v: ShopView, evs: Seq<ShopEvent>)
    requires
        v.room.len() <= v.chairs,
    ensures
        ({
            let (w, seated, taken) = shop_run(v, evs);
            &&& v.room + seated == taken + w.room
            &&& w.room.len() <= w.chairs
            &&& w.chairs == v.chairs
        }),
    decreases evs.len(),
{
    if evs.len() > 0 {
        lemma_shop_run_fifo(v, evs.drop_last());
        let (w, seated, taken) = shop_run(v, evs.drop_last());
        match evs.last() {
            ShopEvent::Arrive(c) => {
                assert(v.room + seated.push(c) =~= (v.room + seated).push(c));
                assert(taken + w.room.push(c) =~= (taken + w.room).push(c));
            },
            ShopEvent::Serve => {
                if w.room.len() > 0 {
                    let c = w.room[0];
                    assert(taken.push(c) + w.room.drop_first() =~= taken + w.room);
                }
            },
        }
    } else {
        assert(v.room + Seq::<usize>::empty() =~= Seq::<usize>::empty() + v.room);
    }
}

/// The barber, who takes customers from the shop's waiting room.
pub struct Barber {}

impl Barber {
    pub fn new() -> (b: Barber) {
        Barber {}
    }
}

} // verus!
