//! A one-lane bridge that carries cars in one direction at a time: a car
//! enters only in the direction the bridge admits and while no car of the
//! other direction is on it, and the bridge turns around after a fixed
//! number of cars have entered in the current direction.
use std::collections::VecDeque;
use vstd::prelude::*;

verus! {

/// How many cars enter in one direction before the bridge turns around.
pub const CARS_BEFORE_TURN: usize = 5;

/// The way a car travels, or the way the bridge currently lets cars through.
#[derive(Debug, Clone, Copy, PartialEq, Eq, Structural)]
pub enum Direction {
    AtoB,
    BtoA,
}

impl Direction {
    pub open spec fn spec_opposite(self) -> Direction {
        match self {
            Direction::AtoB => Direction::BtoA,
            Direction::BtoA => Direction::AtoB,
        }
    }

    /// The other direction.
    pub fn opposite(&self) -> (r: Direction)
        ensures
            r == self.spec_opposite(),
    {
        match self {
            Direction::AtoB => Direction::BtoA,
            Direction::BtoA => Direction::AtoB,
        }
    }
}

/// Turning twice gives back the direction one started from, and turning
/// always changes the direction.
pub proof fn lemma_opposite_involution(d: Direction)
    ensures
        d.spec_opposite().spec_opposite() == d,
        d.spec_opposite() != d,
{
}

/// A car on the bridge: its number and the way it travels.
pub type CarEntry = (usize, Direction);

/// The mathematical state of a bridge.
pub struct BridgeView {
    /// The direction in which arriving cars are currently admitted.
    pub dir: Direction,
    /// The cars on the bridge, in the order in which they entered.
    pub queue: Seq<CarEntry>,
    /// How many cars entered since the direction last changed.
    pub cars_crossed: nat,
    /// After how many cars the direction changes.
    pub capacity_to_change: nat,
}

/// What a car that asks to enter the bridge is told.
#[derive(Debug, Clone, Copy, PartialEq, Eq, Structural)]
pub enum Admission {
    /// The bridge admits the other direction, or cars of the other
    /// direction are still on it: the car waits.
    Wait,
    /// The car is on the bridge; the direction stays.
    Entered,
    /// The car is on the bridge and was the last one before the turn:
    /// from now on the bridge admits the other direction, once the cars on
    /// it have left.
    EnteredAndTurned,
}

/// The state that the bridge's lock protects.
pub struct BridgeState {
    dir: Direction,
    queue: VecDeque<CarEntry>,
    cars_crossed: usize,
    capacity_to_change: usize,
}

/// A bridge; callers share it behind a lock and wait on a condition while
/// `acquire_bridge` answers `Admission::Wait`.
pub struct Bridge {
    state: BridgeState,
}

/// Every car in `q` travels in direction `d`.
pub open spec fn all_travel(q: Seq<CarEntry>, d: Direction) -> bool {
    forall|k: int| 0 <= k < q.len() ==> (#[trigger] q[k]).1 == d
}

/// All cars in `q` travel the same way.
pub open spec fn one_direction(q: Seq<CarEntry>) -> bool {
    forall|i: int, j: int| 0 <= i < q.len() && 0 <= j < q.len() ==> (#[trigger] q[i]).1 == (#[trigger] q[j]).1
}

/// The numbers of the cars in `q`, in order.
pub open spec fn car_ids(q: Seq<CarEntry>) -> Seq<usize> {
    q.map_values(|e: CarEntry| e.0)
}

/// `q` entries for the cars `ids`, all travelling in `d`.
pub open spec fn entries(ids: Seq<usize>, d: Direction) -> Seq<CarEntry> {
    ids.map_values(|id: usize| (id, d))
}

/// A state is well formed when the turn counter is below the turn threshold
/// and the cars on the bridge all travel the same way.
pub open spec fn bridge_wf(v: BridgeView) -> bool {
    &&& v.cars_crossed < v.capacity_to_change
    &&& one_direction(v.queue)
}

/// What `acquire_bridge` does to a bridge in state `v`, for a car `car_id`
/// travelling in direction `car_dir`: the car waits unless the bridge admits
/// its direction and every car on the bridge travels that way too.
pub open spec fn admit_step(v: BridgeView, car_dir: Direction, car_id: usize) -> (BridgeView, Admission) {
    if v.dir != car_dir || !all_travel(v.queue, car_dir) {
        (v, Admission::Wait)
    } else if v.cars_crossed + 1 >= v.capacity_to_change {
        (
            BridgeView {
                dir: v.dir.spec_opposite(),
                queue: v.queue.push((car_id, car_dir)),
                cars_crossed: 0,
                capacity_to_change: v.capacity_to_change,
            },
            Admission::EnteredAndTurned,
        )
    } else {
        (
            BridgeView {
                dir: v.dir,
                queue: v.queue.push((car_id, car_dir)),
                cars_crossed: v.cars_crossed + 1,
                capacity_to_change: v.capacity_to_change,
            },
            Admission::Entered,
        )
    }
}

/// What `release_bridge` does to a bridge in state `v` when car `car_id`
/// leaves: the first entry with its number goes, if there is one.
pub open spec fn release_step(v: BridgeView, car_id: usize) -> BridgeView {
    BridgeView {
        dir: v.dir,
        queue: match car_ids(v.queue).index_of_first(car_id) {
            Some(k) => v.queue.remove(k),
            None => v.queue,
        },
        cars_crossed: v.cars_crossed,
        capacity_to_change: v.capacity_to_change,
    }
}

/// Admitting a car keeps the bridge well formed.
pub proof fn lemma_admit_keeps_wf(v: BridgeView, car_dir: Direction, car_id: usize)
    requires
        bridge_wf(v),
    ensures
        bridge_wf(admit_step(v, car_dir, car_id).0),
{
    let w = admit_step(v, car_dir, car_id).0;
    if admit_step(v, car_dir, car_id).1 != Admission::Wait {
        assert forall|i: int, j: int| 0 <= i < w.queue.len() && 0 <= j < w.queue.len()
            implies (#[trigger] w.queue[i]).1 == (#[trigger] w.queue[j]).1 by {
            assert(w.queue[i].1 == car_dir);
            assert(w.queue[j].1 == car_dir);
        }
    }
}

/// A car leaving keeps the bridge well formed.
pub proof fn lemma_release_keeps_wf(v: BridgeView, car_id: usize)
    requires
        bridge_wf(v),
    ensures
        bridge_wf(release_step(v, car_id)),
{
    let ids = car_ids(v.queue);
    ids.index_of_first_ensures(car_id);
    if let Some(k) = ids.index_of_first(car_id) {
        v.queue.remove_ensures(k);
        let q = v.queue.remove(k);
        assert forall|i: int, j: int| 0 <= i < q.len() && 0 <= j < q.len()
            implies (#[trigger] q[i]).1 == (#[trigger] q[j]).1 by {
            let a = if i < k { i } else { i + 1 };
            let b = if j < k { j } else { j + 1 };
            assert(q[i] == v.queue[a]);
            assert(q[j] == v.queue[b]);
        }
    }
}

impl View for Bridge {
    type V = BridgeView;

    closed spec fn view(&self) -> BridgeView {
        BridgeView {
            dir: self.state.dir,
            queue: self.state.queue@,
            cars_crossed: self.state.cars_crossed as nat,
            capacity_to_change: self.state.capacity_to_change as nat,
        }
    }
}

impl Bridge {
    /// The bridge's invariant.
    pub open spec fn wf(&self) -> bool {
        bridge_wf(self@)
    }

    /// A bridge that admits cars in `initial_dir`, with nobody on it, that
    /// turns after `CARS_BEFORE_TURN` cars.
    pub fn new(initial_dir: Direction) -> (b: Bridge)
        ensures
            b.wf(),
            b@.dir == initial_dir,
            b@.queue == Seq::<CarEntry>::empty(),
            b@.cars_crossed == 0,
            b@.capacity_to_change == CARS_BEFORE_TURN,
    {
        Bridge {
            state: BridgeState {
                dir: initial_dir,
                queue: VecDeque::new(),
                cars_crossed: 0,
                capacity_to_change: CARS_BEFORE_TURN,
            },
        }
    }

    /// The direction in which arriving cars are currently admitted.
    pub fn direction(&self) -> (d: Direction)
        ensures
            d == self@.dir,
    {
        self.state.dir
    }

    /// The number of cars that entered since the last turn.
    pub fn cars_crossed(&self) -> (n: usize)
        ensures
            n == self@.cars_crossed,
    {
        self.state.cars_crossed
    }

    /// The cars on the bridge, in the order in which they entered.
    pub fn cars_on_bridge(&self) -> (q: &VecDeque<CarEntry>)
        ensures
            q@ == self@.queue,
    {
        &self.state.queue
    }

    /// A car `car_id` travelling in `car_dir` asks to enter. If the bridge
    /// admits the other direction, or cars of the other direction are still
    /// on it, nothing changes and the car must wait. Otherwise the car is
    /// queued on the bridge, counted, and the bridge turns when the count
    /// reaches the threshold.
    pub fn acquire_bridge(&mut self, car_dir: Direction, car_id: usize) -> (r: Admission)
        requires
            old(self).wf(),
        ensures
            final(self).wf(),
            (final(self)@, r) == admit_step(old(self)@, car_dir, car_id),
    {
        proof {
            lemma_admit_keeps_wf(self@, car_dir, car_id);
        }
        if self.state.dir != car_dir {
            return Admission::Wait;
        }
        if self.state.queue.len() > 0 {
            let front = self.state.queue[0];
            if front.1 != car_dir {
                return Admission::Wait;
            }
            assert(all_travel(self@.queue, car_dir)) by {
                assert forall|k: int| 0 <= k < self@.queue.len() implies (#[trigger] self@.queue[k]).1 == car_dir by {
                    assert(self@.queue[k].1 == self@.queue[0].1);
                }
            }
        }
        self.state.queue.push_back((car_id, car_dir));
        let crossed = self.state.cars_crossed + 1;
        if crossed >= self.state.capacity_to_change {
            self.state.dir = self.state.dir.opposite();
            self.state.cars_crossed = 0;
            Admission::EnteredAndTurned
        } else {
            self.state.cars_crossed = crossed;
            Admission::Entered
        }
    }

    /// Car `car_id` leaves: the first entry with its number is removed. The
    /// result says whether there was one, that is, whether waiting cars must
    /// be woken.
    pub fn release_bridge(&mut self, car_id: usize) -> (removed: bool)
        requires
            old(self).wf(),
        ensures
            final(self).wf(),
            final(self)@ == release_step(old(self)@, car_id),
            removed == car_ids(old(self)@.queue).contains(car_id),
    {
        proof {
            lemma_release_keeps_wf(self@, car_id);
        }
        let ghost q = self.state.queue@;
        let ghost ids = car_ids(q);
        let len = self.state.queue.len();
        let mut i: usize = 0;
        while i < len
            invariant
                len == q.len(),
                ids == car_ids(q),
                self.state.queue@ == q,
                self.state.dir == old(self).state.dir,
                self.state.cars_crossed == old(self).state.cars_crossed,
                self.state.capacity_to_change == old(self).state.capacity_to_change,
                old(self)@.queue == q,
                bridge_wf(release_step(old(self)@, car_id)),
                i <= len,
                forall|j: int| 0 <= j < i ==> ids[j] != car_id,
            decreases len - i,
        {
            if self.state.queue[i].0 == car_id {
                proof {
                    assert(ids[i as int] == car_id);
                    ids.index_of_first_ensures(car_id);
                    let k = ids.index_of_first(car_id).unwrap();
                    if k < i {
                        assert(ids[k] == car_id);
                    } else if k > i {
                        assert(ids[i as int] != car_id);
                    }
                }
                let _ = self.state.queue.remove(i);
                return true;
            }
            i = i + 1;
        }
        proof {
            ids.index_of_first_ensures(car_id);
            assert(!ids.contains(car_id));
        }
        false
    }
}

/// A call on the bridge under its lock.
pub enum BridgeEvent {
    /// `acquire_bridge(d, id)`.
    Acquire(Direction, usize),
    /// `release_bridge(id)`.
    Release(usize),
}

/// The bridge after the calls `evs`, one after the other, from state `v`.
pub open spec fn bridge_run(v: BridgeView, evs: Seq<BridgeEvent>) -> BridgeView
    decreases evs.len(),
{
    if evs.len() == 0 {
        v
    } else {
        let w = bridge_run(v, evs.drop_last());
        match evs.last() {
            BridgeEvent::Acquire(d, id) => admit_step(w, d, id).0,
            BridgeEvent::Release(id) => release_step(w, id),
        }
    }
}

/// One direction at a time, over whole runs: after any interleaving of
/// arrivals and departures, all cars on the bridge travel the same way.
pub proof fn lemma_run_one_direction(v: BridgeView, evs: Seq<BridgeEvent>)
    requires
        bridge_wf(v),
    ensures
        bridge_wf(bridge_run(v, evs)),
        one_direction(bridge_run(v, evs).queue),
    decreases evs.len(),
{
    if evs.len() > 0 {
        lemma_run_one_direction(v, evs.drop_last());
        let w = bridge_run(v, evs.drop_last());
        match evs.last() {
            BridgeEvent::Acquire(d, id) => lemma_admit_keeps_wf(w, d, id),
            BridgeEvent::Release(id) => lemma_release_keeps_wf(w, id),
        }
    }
}

/// A car that travels the way the bridge admits, onto a bridge whose cars
/// all travel that way (an empty bridge included, whatever its count),
/// enters at the back; the count of cars since the last turn goes up by one,
/// and when it reaches the threshold the bridge turns and the count starts
/// again from zero.
pub proof fn lemma_admission_counts(v: BridgeView, car_id: usize)
    requires
        bridge_wf(v),
        all_travel(v.queue, v.dir),
    ensures
        ({
            let (w, r) = admit_step(v, v.dir, car_id);
            &&& w.queue == v.queue.push((car_id, v.dir))
            &&& w.capacity_to_change == v.capacity_to_change
            &&& v.cars_crossed + 1 < v.capacity_to_change ==> {
                &&& r == Admission::Entered
                &&& w.cars_crossed == v.cars_crossed + 1
                &&& w.dir == v.dir
            }
            &&& v.cars_crossed + 1 == v.capacity_to_change ==> {
                &&& r == Admission::EnteredAndTurned
                &&& w.cars_crossed == 0
                &&& w.dir != v.dir
            }
        }),
{
    lemma_opposite_involution(v.dir);
}

/// A car leaving changes nothing but the cars on the bridge: not the
/// direction, not the count of cars since the last turn (the last car
/// leaving included), not the threshold. When the car was on the bridge,
/// exactly one of its entries goes and the others keep their order.
pub proof fn lemma_release_keeps_counter(v: BridgeView, car_id: usize)
    ensures
        release_step(v, car_id).dir == v.dir,
        release_step(v, car_id).cars_crossed == v.cars_crossed,
        release_step(v, car_id).capacity_to_change == v.capacity_to_change,
        car_ids(v.queue).contains(car_id) ==> exists|k: int|
            0 <= k < v.queue.len() && v.queue[k].0 == car_id
            && (forall|j: int| 0 <= j < k ==> v.queue[j].0 != car_id)
            && release_step(v, car_id).queue == v.queue.subrange(0, k) + v.queue.subrange(k + 1, v.queue.len() as int),
        !car_ids(v.queue).contains(car_id) ==> release_step(v, car_id).queue == v.queue,
{
    let ids = car_ids(v.queue);
    ids.index_of_first_ensures(car_id);
    if let Some(k) = ids.index_of_first(car_id) {
        assert(v.queue[k].0 == ids[k]);
        assert forall|j: int| 0 <= j < k implies v.queue[j].0 != car_id by {
            assert(v.queue[j].0 == ids[j]);
        }
    }
}

/// How many of the calls `evs`, played from state `v`, let a car onto the
/// bridge.
pub open spec fn admissions(v: BridgeView, evs: Seq<BridgeEvent>) -> nat
    decreases evs.len(),
{
    if evs.len() == 0 {
        0
    } else {
        let n = admissions(v, evs.drop_last());
        match evs.last() {
            BridgeEvent::Acquire(d, id) => if admit_step(bridge_run(v, evs.drop_last()), d, id).1
                == Admission::Wait {
                n
            } else {
                n + 1
            },
            BridgeEvent::Release(_) => n,
        }
    }
}

proof fn lemma_count_step(x: int, cap: int)
    requires
        cap > 0,
        x >= 0,
    ensures
        x % cap + 1 < cap ==> (x + 1) % cap == x % cap + 1 && (x + 1) / cap == x / cap,
        x % cap + 1 >= cap ==> (x + 1) % cap == 0 && (x + 1) / cap == x / cap + 1,
{
    vstd::arithmetic::div_mod::lemma_fundamental_div_mod(x, cap);
    let q = x / cap;
    let r = x % cap;
    if r + 1 < cap {
        assert(x + 1 == q * cap + (r + 1)) by (nonlinear_arith)
            requires
                x == cap * q + r,
        ;
        vstd::arithmetic::div_mod::lemma_fundamental_div_mod_converse(x + 1, cap, q, r + 1);
    } else {
        assert(x + 1 == (q + 1) * cap + 0) by (nonlinear_arith)
            requires
                x == cap * q + r,
                r + 1 == cap,
        ;
        vstd::arithmetic::div_mod::lemma_fundamental_div_mod_converse(x + 1, cap, q + 1, 0);
    }
}

/// The direction after `turns` turns from `d`.
pub open spec fn turned(d: Direction, turns: nat) -> Direction
    decreases turns,
{
    if turns == 0 {
        d
    } else {
        turned(d, (turns - 1) as nat).spec_opposite()
    }
}

/// The count of cars since the last turn counts every car let on, whatever
/// cars left in between, and the bridge turns once for every
/// `capacity_to_change` cars: after any run of calls the count is
/// `(c + n) % capacity_to_change` and the bridge has turned
/// `(c + n) / capacity_to_change` times, where `c` is the count at the start
/// and `n` the number of cars let on.
pub proof fn lemma_run_counts_admissions(v: BridgeView, evs: Seq<BridgeEvent>)
    requires
        bridge_wf(v),
    ensures
        bridge_run(v, evs).cars_crossed == (v.cars_crossed + admissions(v, evs)) as int % (v.capacity_to_change as int),
        bridge_run(v, evs).dir == turned(v.dir, ((v.cars_crossed + admissions(v, evs)) as int / (v.capacity_to_change as int)) as nat),
        bridge_run(v, evs).capacity_to_change == v.capacity_to_change,
    decreases evs.len(),
{
    let cap = v.capacity_to_change as int;
    if evs.len() == 0 {
        vstd::arithmetic::div_mod::lemma_fundamental_div_mod_converse(v.cars_crossed as int, cap, 0, v.cars_crossed as int);
    } else {
        let pre = evs.drop_last();
        lemma_run_counts_admissions(v, pre);
        lemma_run_one_direction(v, pre);
        let w = bridge_run(v, pre);
        let x = (v.cars_crossed + admissions(v, pre)) as int;
        lemma_count_step(x, cap);
        vstd::arithmetic::div_mod::lemma_div_pos_is_pos(x, cap);
        match evs.last() {
            BridgeEvent::Acquire(d, id) => {
                if admit_step(w, d, id).1 != Admission::Wait {
                    let t = (x / cap) as nat;
                    assert(turned(v.dir, t + 1) == turned(v.dir, t).spec_opposite());
                }
            },
            BridgeEvent::Release(id) => {
                lemma_release_keeps_counter(w, id);
            },
        }
    }
}

/// While cars of one direction are on the bridge, no car of the other
/// direction enters.
pub proof fn lemma_opposite_cars_wait(v: BridgeView, car_dir: Direction, car_id: usize)
    requires
        bridge_wf(v),
        v.queue.len() > 0,
        v.queue[0].1 != car_dir,
    ensures
        admit_step(v, car_dir, car_id) == (v, Admission::Wait),
{
}

/// The bridge after the cars `ids`, in order, ask to enter travelling in the
/// direction the bridge had at the start; those that find it turned wait.
pub open spec fn admit_in_direction(v: BridgeView, ids: Seq<usize>) -> BridgeView
    decreases ids.len(),
{
    if ids.len() == 0 {
        v
    } else {
        admit_step(admit_in_direction(v, ids.drop_last()), v.dir, ids.last()).0
    }
}

/// Starting right after a turn, with only cars of the bridge's direction on
/// it, the first `capacity_to_change - 1` cars that travel in that direction
/// enter without a turn, and the next one turns it: the direction changes
/// exactly after `capacity_to_change` cars.
pub proof fn lemma_turns_after_capacity(v: BridgeView, ids: Seq<usize>)
    requires
        bridge_wf(v),
        v.cars_crossed == 0,
        all_travel(v.queue, v.dir),
        ids.len() <= v.capacity_to_change,
    ensures
        ids.len() < v.capacity_to_change ==> {
            &&& admit_in_direction(v, ids).dir == v.dir
            &&& admit_in_direction(v, ids).cars_crossed == ids.len()
        },
        ids.len() == v.capacity_to_change ==> {
            &&& admit_in_direction(v, ids).dir == v.dir.spec_opposite()
            &&& admit_in_direction(v, ids).cars_crossed == 0
        },
        admit_in_direction(v, ids).queue == v.queue + entries(ids, v.dir),
        admit_in_direction(v, ids).capacity_to_change == v.capacity_to_change,
    decreases ids.len(),
{
    if ids.len() > 0 {
        let prev = admit_in_direction(v, ids.drop_last());
        lemma_turns_after_capacity(v, ids.drop_last());
        assert(v.queue + entries(ids, v.dir) =~= (v.queue + entries(ids.drop_last(), v.dir)).push(
            (ids.last(), v.dir),
        ));
        assert(all_travel(prev.queue, v.dir)) by {
            assert forall|k: int| 0 <= k < prev.queue.len() implies (#[trigger] prev.queue[k]).1 == v.dir by {
                if k >= v.queue.len() {
                    assert(prev.queue[k] == entries(ids.drop_last(), v.dir)[k - v.queue.len()]);
                }
            }
        }
    } else {
        assert(v.queue + entries(ids, v.dir) =~= v.queue);
    }
}

/// A car that was not on the bridge, enters and then leaves, leaves the
/// queue as it was.
pub proof fn lemma_release_undoes_admission(v: BridgeView, car_dir: Direction, car_id: usize)
    requires
        bridge_wf(v),
        car_dir == v.dir,
        all_travel(v.queue, car_dir),
        !car_ids(v.queue).contains(car_id),
    ensures
        release_step(admit_step(v, car_dir, car_id).0, car_id).queue == v.queue,
{
    let q = v.queue.push((car_id, car_dir));
    let ids = car_ids(q);
    ids.index_of_first_ensures(car_id);
    let k = ids.index_of_first(car_id).unwrap();
    assert(ids[q.len() - 1] == car_id);
    if k < q.len() - 1 {
        assert(car_ids(v.queue)[k] == car_id);
    }
    assert(q.remove(k) =~= v.queue);
}

/// A car, by number, and the way it travels.
pub struct Car {
    pub id: usize,
    pub direction: Direction,
}

impl Car {
    pub fn new(id: usize, direction: Direction) -> (c: Car)
        ensures
            c.id == id,
            c.direction == direction,
    {
        Car { id, direction }
    }
}

} // verus!
