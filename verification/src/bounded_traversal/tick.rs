//! A clock that moves by hand, and sleepers that it wakes.

use std::cmp::Ordering;
use vstd::prelude::*;
use vstd::std_specs::cmp::{PartialEqSpec, PartialOrdSpec};

verus! {

/// A sleeper: `sender` is woken as soon as the clock shows `time`.
#[derive(Debug)]
pub struct TickEvent<S> {
    pub time: usize,
    pub sender: S,
}

impl<S> PartialEq for TickEvent<S> {
    fn eq(&self, other: &Self) -> (res: bool) {
        self.time == other.time
    }
}

impl<S> vstd::std_specs::cmp::PartialEqSpecImpl for TickEvent<S> {
    open spec fn obeys_eq_spec() -> bool {
        true
    }

    open spec fn eq_spec(&self, other: &Self) -> bool {
        self.time == other.time
    }
}

impl<S> Eq for TickEvent<S> {

}

/// The order of sleepers: the later its time, the smaller a sleeper is, so that the greatest
/// is the first to be woken.
impl<S> PartialOrd for TickEvent<S> {
    fn partial_cmp(&self, other: &Self) -> (res: Option<Ordering>) {
        Some(self.cmp(other))
    }
}

impl<S> vstd::std_specs::cmp::PartialOrdSpecImpl for TickEvent<S> {
    open spec fn obeys_partial_cmp_spec() -> bool {
        true
    }

    open spec fn partial_cmp_spec(&self, other: &Self) -> Option<Ordering> {
        Some(self.order(other))
    }
}

impl<S> TickEvent<S> {
    /// What [`TickEvent::cmp`] returns.
    pub open spec fn order(&self, other: &Self) -> Ordering {
        if self.time > other.time {
            Ordering::Less
        } else if self.time == other.time {
            Ordering::Equal
        } else {
            Ordering::Greater
        }
    }

    /// Compares two sleepers: the one with the later time is the smaller one.
    pub fn cmp(&self, other: &Self) -> (res: Ordering)
        ensures
            res == self.order(other),
    {
        if self.time > other.time {
            Ordering::Less
        } else if self.time == other.time {
            Ordering::Equal
        } else {
            Ordering::Greater
        }
    }
}

/// What a clock shows and who sleeps by it.
#[verifier::ext_equal]
pub struct TickModel<S> {
    /// The time.
    pub now: nat,
    /// The sleepers, in the order in which they will be woken.
    pub pending: Seq<TickEvent<S>>,
}

/// Whether sleepers stand in the order of their times.
pub open spec fn in_order<S>(pending: Seq<TickEvent<S>>) -> bool {
    forall|i: int, j: int|
        0 <= i < j < pending.len() ==> (#[trigger] pending[i]).time <= (#[trigger] pending[j]).time
}

/// How many sleepers at the head of `pending` are to be woken by the time `now`.
pub open spec fn due<S>(pending: Seq<TickEvent<S>>, now: nat) -> int
    decreases pending.len(),
{
    if pending.len() > 0 && pending[0].time <= now {
        1 + due(pending.skip(1), now)
    } else {
        0
    }
}

impl<S> TickModel<S> {
    /// The sleepers that the next tick wakes, in order.
    pub open spec fn woken(self) -> Seq<TickEvent<S>> {
        self.pending.take(due(self.pending, self.now + 1))
    }

    /// After one tick.
    pub open spec fn ticked(self) -> TickModel<S> {
        TickModel {
            now: self.now + 1,
            pending: self.pending.skip(due(self.pending, self.now + 1)),
        }
    }

    /// After `n` ticks.
    pub open spec fn ticked_times(self, n: nat) -> TickModel<S>
        decreases n,
    {
        if n == 0 {
            self
        } else {
            self.ticked_times((n - 1) as nat).ticked()
        }
    }

    /// After `sender` went to sleep for `delay` ticks: it is woken after all who are to be
    /// woken by that time already.
    pub open spec fn slept(self, delay: usize, sender: S) -> TickModel<S> {
        TickModel {
            now: self.now,
            pending: self.pending.insert(
                due(self.pending, self.now + delay as nat),
                TickEvent { time: (self.now + delay) as usize, sender },
            ),
        }
    }
}

proof fn lemma_due_bounds<S>(pending: Seq<TickEvent<S>>, now: nat)
    ensures
        0 <= due(pending, now) <= pending.len(),
    decreases pending.len(),
{
    if pending.len() > 0 && pending[0].time <= now {
        lemma_due_bounds(pending.skip(1), now);
    }
}

/// Of sleepers in order, those at the head that are to be woken by `now` are all who are.
proof fn lemma_due<S>(pending: Seq<TickEvent<S>>, now: nat)
    requires
        in_order(pending),
    ensures
        0 <= due(pending, now) <= pending.len(),
        forall|i: int|
            0 <= i < pending.len() ==> (i < due(pending, now) <==> (#[trigger] pending[i]).time
                <= now),
    decreases pending.len(),
{
    if pending.len() > 0 {
        let rest = pending.skip(1);
        assert(in_order(rest));
        lemma_due(rest, now);
        assert forall|i: int| 0 <= i < pending.len() implies (i < due(pending, now) <==> (
        #[trigger] pending[i]).time <= now) by {
            if i > 0 {
                assert(rest[i - 1] == pending[i]);
                assert(pending[0].time <= pending[i].time);
            }
        }
    }
}

/// The number of sleepers to wake is where the sleepers that stay begin.
proof fn lemma_due_is<S>(pending: Seq<TickEvent<S>>, now: nat, k: int)
    requires
        in_order(pending),
        0 <= k <= pending.len(),
        forall|i: int| 0 <= i < k ==> (#[trigger] pending[i]).time <= now,
        k < pending.len() ==> pending[k].time > now,
    ensures
        due(pending, now) == k,
{
    lemma_due(pending, now);
    let d = due(pending, now);
    if d < k {
        assert(pending[d].time <= now);
    }
    if d > k {
        assert(pending[k].time <= now);
    }
}

/// A clock that moves by hand.
pub struct Tick<S> {
    current_time: usize,
    events: Vec<TickEvent<S>>,
}

impl<S> View for Tick<S> {
    type V = TickModel<S>;

    closed spec fn view(&self) -> TickModel<S> {
        TickModel { now: self.current_time as nat, pending: self.events@.reverse() }
    }
}

impl<S> Tick<S> {
    /// The sleepers stand in the order of [`TickEvent`], the first to be woken at the end.
    #[verifier::type_invariant]
    spec fn wf(self) -> bool {
        in_order(self.events@.reverse())
    }

    /// A clock at time zero, by which nobody sleeps.
    pub fn new() -> (tick: Self)
        ensures
            tick@ == (TickModel { now: 0, pending: Seq::<TickEvent<S>>::empty() }),
    {
        let events: Vec<TickEvent<S>> = Vec::new();
        assert(events@.reverse() =~= Seq::<TickEvent<S>>::empty());
        Tick { current_time: 0, events }
    }

    /// The time.
    pub fn now(&self) -> (res: usize)
        ensures
            res == self@.now,
    {
        self.current_time
    }

    /// Moves the clock by one: the new time, and those to be told it, in order.
    pub fn tick(&mut self) -> (res: (usize, Vec<S>))
        requires
            old(self)@.now < usize::MAX,
        ensures
            in_order(old(self)@.pending),
            final(self)@ == old(self)@.ticked(),
            res.0 == final(self)@.now,
            res.1@ == old(self)@.woken().map_values(|event: TickEvent<S>| event.sender),
            in_order(final(self)@.pending),
    {
        proof {
            use_type_invariant(&*self);
        }
        let ghost all = self.events@.reverse();
        let mut events: Vec<TickEvent<S>> = Vec::new();
        std::mem::swap(&mut events, &mut self.events);
        let now: usize = self.current_time + 1;
        let mut done: Vec<S> = Vec::new();
        assert(all.skip(0) =~= all);
        while events.len() > 0 && events[events.len() - 1].time <= now
            invariant
                in_order(all),
                done@.len() <= all.len(),
                events@.reverse() =~= all.skip(done@.len() as int),
                forall|i: int| 0 <= i < done@.len() ==> (#[trigger] all[i]).time <= now,
                forall|i: int| 0 <= i < done@.len() ==> #[trigger] done@[i] == all[i].sender,
            decreases events@.len(),
        {
            let ghost before = events@.reverse();
            let ghost k = done@.len() as int;
            assert(before.len() == all.skip(k).len());
            assert(before[0] == events@[events@.len() - 1]);
            assert(all.skip(k)[0] == all[k]);
            match events.pop() {
                Some(event) => {
                    done.push(event.sender);
                    proof {
                        assert(events@.reverse() =~= before.skip(1));
                        assert(all.skip(k).skip(1) =~= all.skip(k + 1));
                    }
                },
                None => {},
            }
        }
        proof {
            let k = done@.len() as int;
            if k < all.len() {
                assert(all.skip(k)[0] == all[k]);
                assert(events@.reverse()[0] == events@[events@.len() - 1]);
            }
            assert(events@.reverse().len() == all.skip(k).len());
            lemma_due_is(all, now as nat, k);
            assert(done@ =~= all.take(k).map_values(|event: TickEvent<S>| event.sender));
            assert(in_order(all.skip(k)));
        }
        self.events = events;
        self.current_time = now;
        (now, done)
    }

    /// Puts `sender` to sleep for `delay` ticks.
    pub fn sleep(&mut self, delay: usize, sender: S)
        requires
            old(self)@.now + delay <= usize::MAX,
        ensures
            in_order(old(self)@.pending),
            final(self)@ == old(self)@.slept(delay, sender),
            in_order(final(self)@.pending),
    {
        proof {
            use_type_invariant(&*self);
        }
        let ghost all = self.events@.reverse();
        let event: TickEvent<S> = TickEvent { time: self.current_time + delay, sender };
        let mut events: Vec<TickEvent<S>> = Vec::new();
        std::mem::swap(&mut events, &mut self.events);
        let ghost stored = events@;
        let mut i: usize = 0;
        while i < events.len() && events[i] < event
            invariant
                i <= events@.len(),
                events@ == stored,
                forall|j: int| 0 <= j < i ==> (#[trigger] stored[j]).time > event.time,
            decreases events@.len() - i,
        {
            i = i + 1;
        }
        let ghost k = stored.len() - i;
        proof {
            assert forall|j: int| 0 <= j < k implies (#[trigger] all[j]).time <= event.time by {
                assert(all[j] == stored[stored.len() - 1 - j]);
                assert(all[k - 1] == stored[i as int]);
                if j < k - 1 {
                    assert(all[j].time <= all[k - 1].time);
                }
            }
            if k < all.len() {
                assert(all[k] == stored[stored.len() - 1 - k]);
            }
            lemma_due_is(all, event.time as nat, k);
        }
        let ghost new = event;
        events.insert(i, event);
        proof {
            assert(events@.reverse() =~= all.insert(k, new));
            let after = all.insert(k, new);
            assert forall|a: int, b: int| 0 <= a < b < after.len() implies (
            #[trigger] after[a]).time <= (#[trigger] after[b]).time by {
                lemma_due(all, new.time as nat);
                let x = if a < k { a } else { a - 1 };
                let y = if b < k { b } else { b - 1 };
                if a != k && b != k {
                    assert(all[x].time <= all[y].time);
                } else if a == k {
                    assert(all[y] == after[b]);
                } else {
                    assert(all[x] == after[a]);
                }
            }
        }
        self.events = events;
    }
}

/// A tick wakes a part of the sleepers and keeps the others: none is lost and none is woken
/// twice.
pub proof fn law_no_sleeper_is_lost<S>(clock: TickModel<S>)
    ensures
        clock.woken() + clock.ticked().pending == clock.pending,
{
    lemma_due_bounds(clock.pending, clock.now + 1);
    assert(clock.woken() + clock.ticked().pending =~= clock.pending);
}

/// A tick wakes exactly those whose time has come, the earlier ones first; everyone who sleeps
/// on has a time after that of the clock.
pub proof fn law_no_due_sleeper_sleeps_on<S>(clock: TickModel<S>)
    requires
        in_order(clock.pending),
    ensures
        forall|i: int|
            0 <= i < clock.woken().len() ==> (#[trigger] clock.woken()[i]).time
                <= clock.ticked().now,
        in_order(clock.woken()),
        forall|i: int|
            0 <= i < clock.ticked().pending.len() ==> (#[trigger] clock.ticked().pending[i]).time
                > clock.ticked().now,
        in_order(clock.ticked().pending),
{
    let d = due(clock.pending, clock.now + 1);
    lemma_due(clock.pending, clock.now + 1);
    assert forall|i: int| 0 <= i < clock.woken().len() implies (#[trigger] clock.woken()[i]).time
        <= clock.ticked().now by {
        assert(clock.woken()[i] == clock.pending[i]);
    }
    assert forall|i: int| 0 <= i < clock.ticked().pending.len() implies (
    #[trigger] clock.ticked().pending[i]).time > clock.ticked().now by {
        assert(clock.ticked().pending[i] == clock.pending[d + i]);
    }
}

/// How many sleepers have been woken after `n` ticks.
pub open spec fn woken_by<S>(clock: TickModel<S>, n: nat) -> int {
    if n == 0 {
        0
    } else {
        due(clock.pending, clock.now + n)
    }
}

/// After `n` ticks the clock shows a time later by `n`, and those who have been woken are
/// exactly those whose time has come. So whoever sleeps for `delay` ticks is woken by tick
/// number `delay`, or by the first one for no delay at all.
pub proof fn law_sleepers_are_woken_on_time<S>(clock: TickModel<S>, n: nat)
    requires
        in_order(clock.pending),
    ensures
        clock.ticked_times(n).now == clock.now + n,
        0 <= woken_by(clock, n) <= clock.pending.len(),
        clock.ticked_times(n).pending == clock.pending.skip(woken_by(clock, n)),
        forall|i: int|
            0 <= i < clock.pending.len() ==> (i < woken_by(clock, n) <==> n > 0 && (
            #[trigger] clock.pending[i]).time <= clock.now + n),
    decreases n,
{
    let all = clock.pending;
    lemma_due(all, clock.now + n);
    if n == 0 {
        assert(all.skip(0) =~= all);
    } else {
        let m = (n - 1) as nat;
        law_sleepers_are_woken_on_time(clock, m);
        lemma_due(all, clock.now + m);
        let before = clock.ticked_times(m);
        let w = woken_by(clock, m);
        let now = clock.now + n;
        let k = due(all, now) - w;
        assert(w <= due(all, now)) by {
            if w > due(all, now) {
                assert(all[due(all, now)].time <= clock.now + m);
            }
        }
        assert(in_order(before.pending));
        assert forall|i: int| 0 <= i < k implies (#[trigger] before.pending[i]).time <= now by {
            assert(before.pending[i] == all[w + i]);
        }
        if k < before.pending.len() {
            assert(before.pending[k] == all[w + k]);
        }
        lemma_due_is(before.pending, now, k);
        assert(before.pending.skip(k) =~= all.skip(w + k));
    }
}

/// A sleeper is added to those who sleep, with the time that comes `delay` ticks after now. All
/// others keep their places before and behind it: before it stand those whose time is not later,
/// behind it those whose time is. The clock does not move.
pub proof fn law_a_sleeper_is_added_in_its_place<S>(clock: TickModel<S>, delay: usize, sender: S)
    requires
        in_order(clock.pending),
        clock.now + delay <= usize::MAX,
    ensures
        ({
            let after = clock.slept(delay, sender);
            let new = TickEvent { time: (clock.now + delay) as usize, sender };
            &&& after.now == clock.now
            &&& after.pending.len() == clock.pending.len() + 1
            &&& in_order(after.pending)
            &&& exists|k: int|
                {
                    &&& 0 <= k <= clock.pending.len()
                    &&& #[trigger] after.pending[k] == new
                    &&& forall|i: int|
                        0 <= i < k ==> (#[trigger] after.pending[i]) == clock.pending[i]
                            && after.pending[i].time <= clock.now + delay
                    &&& forall|i: int|
                        k < i < after.pending.len() ==> (#[trigger] after.pending[i])
                            == clock.pending[i - 1] && after.pending[i].time > clock.now + delay
                }
        }),
{
    let time = clock.now + delay as nat;
    let k = due(clock.pending, time);
    lemma_due(clock.pending, time);
    let after = clock.slept(delay, sender);
    let new = TickEvent { time: (clock.now + delay) as usize, sender };
    assert(after.pending[k] == new);
    assert forall|i: int| 0 <= i < k implies (#[trigger] after.pending[i]) == clock.pending[i]
        && after.pending[i].time <= clock.now + delay by {
        assert(clock.pending[i].time <= time);
    }
    assert forall|i: int| k < i < after.pending.len() implies (#[trigger] after.pending[i])
        == clock.pending[i - 1] && after.pending[i].time > clock.now + delay by {
        assert(clock.pending[i - 1].time > time);
    }
    assert forall|i: int, j: int| 0 <= i < j < after.pending.len() implies (
    #[trigger] after.pending[i]).time <= (#[trigger] after.pending[j]).time by {
        if i != k && j != k {
            let x = if i < k { i } else { i - 1 };
            let y = if j < k { j } else { j - 1 };
            assert(clock.pending[x].time <= clock.pending[y].time);
        }
    }
}

/// Whoever goes to sleep is woken by the tick that their delay counts, and by the first one for
/// no delay, and not before.
pub proof fn law_whoever_sleeps_is_woken_by_their_tick<S>(
    clock: TickModel<S>,
    delay: usize,
    sender: S,
    n: nat,
)
    requires
        in_order(clock.pending),
        clock.now + delay <= usize::MAX,
        n > 0,
    ensures
        ({
            let after = clock.slept(delay, sender);
            let new = TickEvent { time: (clock.now + delay) as usize, sender };
            &&& n < delay ==> after.ticked_times(n).pending.contains(new)
            &&& n >= delay ==> forall|i: int|
                0 <= i < after.ticked_times(n).pending.len() ==> (
                #[trigger] after.ticked_times(n).pending[i]).time > clock.now + delay
        }),
{
    law_a_sleeper_is_added_in_its_place(clock, delay, sender);
    let after = clock.slept(delay, sender);
    let new = TickEvent { time: (clock.now + delay) as usize, sender };
    law_sleepers_are_woken_on_time(after, n);
    let w = woken_by(after, n);
    let left = after.ticked_times(n).pending;
    assert(left == after.pending.skip(w));
    assert forall|i: int| 0 <= i < left.len() implies (#[trigger] left[i]).time > after.now + n by {
        assert(left[i] == after.pending[w + i]);
    }
    let k = choose|k: int|
        0 <= k <= clock.pending.len() && #[trigger] after.pending[k] == new;
    if n < delay {
        assert(w <= k);
        assert(left[k - w] == new);
    }
}

/// Sleepers are equal if they have one time, and the one with the later time is the smaller one.
pub proof fn law_sleepers_are_ordered_by_time_reversed<S>(a: TickEvent<S>, b: TickEvent<S>)
    ensures
        a.order(&b) is Less <==> a.time > b.time,
        a.order(&b) is Equal <==> a.time == b.time,
        a.order(&b) is Greater <==> a.time < b.time,
        a.eq_spec(&b) <==> a.time == b.time,
        a.partial_cmp_spec(&b) == Some(a.order(&b)),
{
}

} // verus!
