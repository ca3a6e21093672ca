//! Logs of what a traversal did: which node it unfolded at which time, and what it ended with.
//! A log is a set: neither order nor repetition counts.
//!
//! A [`StateLog`] is a handle. The states stand in [`StateLogs`], which every call is handed, so
//! that all clones of a handle reach the same log.

use vstd::laws_eq::{obeys_concrete_eq, obeys_eq, obeys_eq_spec_properties};
use vstd::prelude::*;
use vstd::std_specs::cmp::PartialEqSpec;

verus! {

/// Something that a traversal did.
#[derive(Debug, Hash, PartialOrd, Ord)]
pub enum State<V> {
    /// It unfolded the node `id` at `time`.
    Unfold { id: usize, time: usize },
    /// It ended, with `value` if it did not fail.
    Done { value: Option<V> },
}

impl<V> State<V> {
    /// Whether the state holds a value, so that comparing it may compare values.
    pub open spec fn has_value(&self) -> bool {
        self matches State::Done { value } && value is Some
    }
}

impl<V: PartialEq> State<V> {
    /// What `==` says of two states.
    pub open spec fn same_as(&self, other: &Self) -> bool {
        match (*self, *other) {
            (State::Unfold { id, time }, State::Unfold { id: other_id, time: other_time }) => {
                id == other_id && time == other_time
            },
            (State::Done { value }, State::Done { value: other_value }) => {
                match (value, other_value) {
                    (Some(v), Some(w)) => v.eq_spec(&w),
                    (None, None) => true,
                    _ => false,
                }
            },
            _ => false,
        }
    }
}

impl<V: PartialEq> PartialEq for State<V> {
    fn eq(&self, other: &Self) -> (res: bool)
        ensures
            !self.has_value() || !other.has_value() ==> res == self.same_as(other),
    {
        match (self, other) {
            (State::Unfold { id, time }, State::Unfold { id: other_id, time: other_time }) => {
                *id == *other_id && *time == *other_time
            },
            (State::Done { value }, State::Done { value: other_value }) => {
                match (value, other_value) {
                    (Some(v), Some(w)) => *v == *w,
                    (None, None) => true,
                    _ => false,
                }
            },
            _ => false,
        }
    }
}

impl<V: PartialEq> vstd::std_specs::cmp::PartialEqSpecImpl for State<V> {
    open spec fn obeys_eq_spec() -> bool {
        V::obeys_eq_spec()
    }

    open spec fn eq_spec(&self, other: &Self) -> bool {
        self.same_as(other)
    }
}

impl<V: Eq> Eq for State<V> {

}

impl<V: Clone> Clone for State<V> {
    fn clone(&self) -> (res: Self)
        ensures
            match *self {
                State::Done { value: Some(v) } => {
                    &&& res matches State::Done { value: Some(w) }
                    &&& cloned(v, w)
                },
                _ => res == *self,
            },
    {
        match self {
            State::Unfold { id, time } => State::Unfold { id: *id, time: *time },
            State::Done { value: Some(v) } => State::Done { value: Some(v.clone()) },
            State::Done { value: None } => State::Done { value: None },
        }
    }
}

/// Whether no state of `states` holds a value.
pub open spec fn no_values<V>(states: Seq<State<V>>) -> bool {
    forall|i: int| 0 <= i < states.len() ==> !(#[trigger] states[i]).has_value()
}

/// Whether `states` holds a state that equals `state`.
pub open spec fn holds<V: PartialEq>(states: Seq<State<V>>, state: State<V>) -> bool {
    exists|i: int| 0 <= i < states.len() && (#[trigger] states[i]).eq_spec(&state)
}

/// `states` with `state` in it; a state that is there already is not entered again.
pub open spec fn entered<V: PartialEq>(states: Seq<State<V>>, state: State<V>) -> Seq<State<V>> {
    if holds(states, state) {
        states
    } else {
        states.push(state)
    }
}

/// Whether no state occurs twice.
pub open spec fn states_distinct<V: PartialEq>(states: Seq<State<V>>) -> bool {
    forall|i: int, j: int|
        #![trigger states[i], states[j]]
        0 <= i < j < states.len() ==> !states[i].eq_spec(&states[j])
}

/// The states of one log.
#[derive(Debug)]
struct StateSet<V: PartialEq> {
    states: Vec<State<V>>,
}

impl<V: PartialEq> StateSet<V> {
    /// No state is in the set twice.
    #[verifier::type_invariant]
    spec fn wf(self) -> bool {
        V::obeys_eq_spec() || no_values(self.states@) ==> states_distinct(self.states@)
    }

    /// The states, in the order in which they were entered first.
    closed spec fn list(&self) -> Seq<State<V>> {
        self.states@
    }

    /// An empty set.
    fn new() -> (set: Self)
        ensures
            set.list() == Seq::<State<V>>::empty(),
    {
        StateSet { states: Vec::new() }
    }

    /// Whether the set holds `state`.
    fn contains(&self, state: &State<V>) -> (res: bool)
        ensures
            V::obeys_eq_spec() || !state.has_value() || no_values(self.list()) ==> res == holds(
                self.list(),
                *state,
            ),
    {
        let mut i: usize = 0;
        while i < self.states.len()
            invariant
                i <= self.states@.len(),
                V::obeys_eq_spec() || !state.has_value() || no_values(self.list())
                    ==> forall|j: int|
                    0 <= j < i ==> !(#[trigger] self.states@[j]).eq_spec(state),
            decreases self.states@.len() - i,
        {
            if self.states[i] == *state {
                return true;
            }
            i = i + 1;
        }
        false
    }

    /// Enters `state`.
    fn enter(&mut self, state: State<V>)
        ensures
            V::obeys_eq_spec() || !state.has_value() || no_values(old(self).list())
                ==> final(self).list() == entered(old(self).list(), state),
            final(self).list() == old(self).list() || final(self).list() == old(self).list().push(
                state,
            ),
    {
        proof {
            use_type_invariant(&*self);
        }
        if !self.contains(&state) {
            let mut states: Vec<State<V>> = Vec::new();
            std::mem::swap(&mut states, &mut self.states);
            let ghost before = states@;
            states.push(state);
            proof {
                if V::obeys_eq_spec() || no_values(states@) {
                    assert(no_values(states@) ==> no_values(before)) by {
                        assert forall|i: int| no_values(states@) && 0 <= i < before.len() implies !(
                        #[trigger] before[i]).has_value() by {
                            assert(states@[i] == before[i]);
                        }
                    }
                    assert(!states@[before.len() as int].has_value() || V::obeys_eq_spec());
                    assert forall|i: int, j: int|
                        #![trigger states@[i], states@[j]]
                        0 <= i < j < states@.len() implies !states@[i].eq_spec(&states@[j]) by {
                        assert(states@[i] == before[i]);
                        if j < before.len() {
                            assert(states@[j] == before[j]);
                        }
                    }
                }
            }
            self.states = states;
        }
    }

    /// Whether every state of this set is in `other`.
    fn is_part_of(&self, other: &Self) -> (res: bool)
        ensures
            V::obeys_eq_spec() || no_values(self.list()) || no_values(other.list()) ==> res
                == part_of(self.list(), other.list()),
    {
        let mut i: usize = 0;
        while i < self.states.len()
            invariant
                i <= self.states@.len(),
                V::obeys_eq_spec() || no_values(self.list()) || no_values(other.list())
                    ==> forall|j: int|
                    0 <= j < i ==> #[trigger] holds(other.list(), self.states@[j]),
            decreases self.states@.len() - i,
        {
            if !other.contains(&self.states[i]) {
                assert(V::obeys_eq_spec() || no_values(self.list()) || no_values(other.list())
                    ==> !holds(other.list(), self.states@[i as int]));
                return false;
            }
            i = i + 1;
        }
        true
    }
}

/// Whether every state of `states` is in `others`.
pub open spec fn part_of<V: PartialEq>(states: Seq<State<V>>, others: Seq<State<V>>) -> bool {
    forall|i: int| 0 <= i < states.len() ==> #[trigger] holds(others, states[i])
}

/// Logs, which are reached through handles.
#[derive(Debug)]
pub struct StateLogs<V: PartialEq> {
    logs: Vec<StateSet<V>>,
}

impl<V: PartialEq> View for StateLogs<V> {
    type V = Seq<Seq<State<V>>>;

    /// The states of each log, in the order in which they were entered first.
    closed spec fn view(&self) -> Seq<Seq<State<V>>> {
        self.logs@.map_values(|set: StateSet<V>| set.list())
    }
}

impl<V: PartialEq> StateLogs<V> {
    /// No logs.
    pub fn new() -> (logs: Self)
        ensures
            logs@ == Seq::<Seq<State<V>>>::empty(),
    {
        let logs: StateLogs<V> = StateLogs { logs: Vec::new() };
        assert(logs@ =~= Seq::<Seq<State<V>>>::empty());
        logs
    }

    /// Whether `log` is the handle of one of these logs.
    pub fn has(&self, log: &StateLog) -> (res: bool)
        ensures
            res == log.stands_in(self@),
    {
        log.index < self.logs.len()
    }

    /// Enters `state` into the log at `index`.
    fn enter(&mut self, index: usize, state: State<V>)
        requires
            index < old(self)@.len(),
        ensures
            final(self)@.len() == old(self)@.len(),
            forall|i: int|
                0 <= i < old(self)@.len() && i != index ==> #[trigger] final(self)@[i]
                    == old(self)@[i],
            V::obeys_eq_spec() || !state.has_value() || no_values(old(self)@[index as int])
                ==> final(self)@ == old(self)@.update(
                index as int,
                entered(old(self)@[index as int], state),
            ),
            final(self)@[index as int] == old(self)@[index as int] || final(self)@[index as int]
                == old(self)@[index as int].push(state),
    {
        let ghost before = self.logs@;
        let ghost logs = self@;
        assert(logs[index as int] == before[index as int].list());
        self.logs[index].enter(state);
        assert forall|i: int| 0 <= i < logs.len() && i != index implies #[trigger] self@[i]
            == logs[i] by {
            assert(self.logs@[i] == before[i]);
        }
        assert(self@[index as int] == self.logs@[index as int].list());
        proof {
            if V::obeys_eq_spec() || !state.has_value() || no_values(logs[index as int]) {
                assert(self@ =~= logs.update(index as int, entered(logs[index as int], state)));
            }
        }
    }
}

/// A handle of a log. A clone is a handle of the same log.
#[derive(Clone, Copy, Debug)]
pub struct StateLog {
    index: usize,
}

impl StateLog {
    /// The place of the log among all logs.
    pub closed spec fn place(&self) -> int {
        self.index as int
    }

    /// Whether the log is one of `logs`.
    pub open spec fn stands_in<V>(&self, logs: Seq<Seq<State<V>>>) -> bool {
        0 <= self.place() < logs.len()
    }

    /// A new log without states.
    pub fn new<V: PartialEq>(logs: &mut StateLogs<V>) -> (log: Self)
        ensures
            final(logs)@ == old(logs)@.push(Seq::empty()),
            log.place() == old(logs)@.len(),
    {
        let ghost before = logs@;
        let index: usize = logs.logs.len();
        logs.logs.push(StateSet::new());
        assert(logs@ =~= before.push(Seq::empty()));
        StateLog { index }
    }

    /// Enters that the node `id` was unfolded at `time`.
    pub fn unfold<V: PartialEq>(&self, logs: &mut StateLogs<V>, id: usize, time: usize)
        requires
            self.stands_in(old(logs)@),
        ensures
            final(logs)@ == old(logs)@.update(
                self.place(),
                entered(old(logs)@[self.place()], State::Unfold { id, time }),
            ),
    {
        logs.enter(self.index, State::Unfold { id, time });
    }

    /// Enters the end of the traversal.
    pub fn done<V: PartialEq>(&self, logs: &mut StateLogs<V>, value: Option<V>)
        requires
            self.stands_in(old(logs)@),
        ensures
            V::obeys_eq_spec() || value is None || no_values(old(logs)@[self.place()])
                ==> final(logs)@ == old(logs)@.update(
                self.place(),
                entered(old(logs)@[self.place()], State::Done { value }),
            ),
            final(logs)@ == old(logs)@ || final(logs)@ == old(logs)@.update(
                self.place(),
                old(logs)@[self.place()].push(State::Done { value }),
            ),
    {
        let ghost before = logs@;
        let ghost state = State::Done { value };
        logs.enter(self.index, State::Done { value });
        proof {
            let p = self.place();
            if logs@[p] == before[p] {
                assert(logs@ =~= before);
            } else {
                assert(logs@ =~= before.update(p, before[p].push(state)));
            }
        }
    }

    /// Whether two logs hold the same states. Neither is changed.
    pub fn eq<V: PartialEq>(&self, logs: &StateLogs<V>, other: &StateLog) -> (res: bool)
        requires
            self.stands_in(logs@),
            other.stands_in(logs@),
        ensures
            V::obeys_eq_spec() || no_values(logs@[self.place()]) || no_values(
                logs@[other.place()],
            ) ==> res == equal_logs(logs@[self.place()], logs@[other.place()]),
    {
        assert(logs@[self.place()] == logs.logs@[self.place()].list());
        assert(logs@[other.place()] == logs.logs@[other.place()].list());
        let states: &StateSet<V> = &logs.logs[self.index];
        let others: &StateSet<V> = &logs.logs[other.index];
        states.is_part_of(others) && others.is_part_of(states)
    }
}

/// Whether two logs hold the same states: each state of one is in the other.
pub open spec fn equal_logs<V: PartialEq>(a: Seq<State<V>>, b: Seq<State<V>>) -> bool {
    part_of(a, b) && part_of(b, a)
}

/// The log after the states `calls` were entered into an empty one.
pub open spec fn log_of<V: PartialEq>(calls: Seq<State<V>>) -> Seq<State<V>>
    decreases calls.len(),
{
    if calls.len() == 0 {
        Seq::empty()
    } else {
        entered(log_of(calls.drop_last()), calls.last())
    }
}

/// Whether the same states are in `a` and in `b`.
pub open spec fn same_states<V: PartialEq>(a: Seq<State<V>>, b: Seq<State<V>>) -> bool {
    forall|state: State<V>| #[trigger] holds(a, state) <==> holds(b, state)
}

/// Whether `==` of values is an equivalence, as `Eq` asks.
pub open spec fn lawful_eq<V: PartialEq>() -> bool {
    obeys_eq::<V>() && forall|v: V| #[trigger] v.eq_spec(&v)
}

proof fn lemma_same_as<V: PartialEq>(x: State<V>, y: State<V>, z: State<V>)
    requires
        lawful_eq::<V>() || !x.has_value(),
    ensures
        x.eq_spec(&x),
        x.eq_spec(&y) ==> y.eq_spec(&x),
        x.eq_spec(&y) && y.eq_spec(&z) ==> x.eq_spec(&z),
{
    reveal(obeys_eq_spec_properties);
}

/// Entering states into a log forgets only their order and their repetition.
proof fn lemma_log_holds<V: PartialEq>(calls: Seq<State<V>>, state: State<V>)
    requires
        lawful_eq::<V>() || no_values(calls),
    ensures
        holds(log_of(calls), state) <==> holds(calls, state),
        no_values(calls) ==> no_values(log_of(calls)),
    decreases calls.len(),
{
    if calls.len() > 0 {
        let front = calls.drop_last();
        let last = calls.last();
        let n = calls.len() - 1;
        let before = log_of(front);
        let after = log_of(calls);
        if no_values(calls) {
            assert forall|i: int| 0 <= i < front.len() implies !(
            #[trigger] front[i]).has_value() by {
                assert(!calls[i].has_value());
            }
            assert(!calls[n].has_value());
        }
        lemma_log_holds(front, state);
        lemma_log_holds(front, last);
        if no_values(calls) {
            assert forall|i: int| 0 <= i < after.len() implies !(
            #[trigger] after[i]).has_value() by {
                if i < before.len() {
                    assert(after[i] == before[i]);
                }
            }
        }
        if holds(before, state) {
            let i = choose|i: int| 0 <= i < before.len() && (#[trigger] before[i]).eq_spec(&state);
            assert(after[i].eq_spec(&state));
        }
        if holds(front, state) {
            let i = choose|i: int| 0 <= i < front.len() && (#[trigger] front[i]).eq_spec(&state);
            assert(calls[i].eq_spec(&state));
        }
        if last.eq_spec(&state) {
            assert(calls[n].eq_spec(&state));
            if holds(before, last) {
                let i = choose|i: int|
                    0 <= i < before.len() && (#[trigger] before[i]).eq_spec(&last);
                lemma_same_as(before[i], last, state);
                assert(after[i].eq_spec(&state));
            } else {
                assert(after[before.len() as int].eq_spec(&state));
            }
        }
        if holds(after, state) {
            let i = choose|i: int| 0 <= i < after.len() && (#[trigger] after[i]).eq_spec(&state);
            if i < before.len() {
                assert(before[i].eq_spec(&state));
            }
        }
        if holds(calls, state) {
            let i = choose|i: int| 0 <= i < calls.len() && (#[trigger] calls[i]).eq_spec(&state);
            if i < n {
                assert(front[i].eq_spec(&state));
            }
        }
    }
}

/// Two logs into which the states `a` and `b` were entered are equal exactly if the same
/// states were entered into both, whatever the order and however often. So two empty logs are
/// equal, and a log is equal to itself. Values have to be comparable at all, unless there are
/// none.
pub proof fn law_equal_logs_were_told_the_same<V: PartialEq>(a: Seq<State<V>>, b: Seq<State<V>>)
    requires
        lawful_eq::<V>() || (no_values(a) && no_values(b)),
    ensures
        equal_logs(log_of(a), log_of(b)) <==> equal_logs(a, b),
        equal_logs(a, b) <==> same_states(a, b),
        equal_logs(log_of(a), log_of(a)),
{
    let x = log_of(a);
    let y = log_of(b);
    let any = State::<V>::Unfold { id: 0, time: 0 };
    lemma_log_holds(a, any);
    lemma_log_holds(b, any);
    lemma_parts(a, b);
    lemma_parts(x, y);
    assert(part_of(x, x)) by {
        lemma_parts(x, x);
    }
    assert(same_states(x, y) <==> same_states(a, b)) by {
        if same_states(a, b) {
            assert forall|state: State<V>| #[trigger] holds(x, state) <==> holds(y, state) by {
                lemma_log_holds(a, state);
                lemma_log_holds(b, state);
                assert(holds(a, state) <==> holds(b, state));
            }
        }
        if same_states(x, y) {
            assert forall|state: State<V>| #[trigger] holds(a, state) <==> holds(b, state) by {
                lemma_log_holds(a, state);
                lemma_log_holds(b, state);
                assert(holds(x, state) <==> holds(y, state));
            }
        }
    }
}

/// One call that concerns a log.
pub enum LogCall<V> {
    /// A new log was made.
    New,
    /// A state was entered into the log at a place, through any of its handles.
    Enter(int, State<V>),
}

/// The logs after `calls`.
pub open spec fn logs_after<V: PartialEq>(calls: Seq<LogCall<V>>) -> Seq<Seq<State<V>>>
    decreases calls.len(),
{
    if calls.len() == 0 {
        Seq::empty()
    } else {
        let before = logs_after(calls.drop_last());
        match calls.last() {
            LogCall::New => before.push(Seq::empty()),
            LogCall::Enter(p, state) => before.update(p, entered(before[p], state)),
        }
    }
}

/// Whether every call concerns a log that is there.
pub open spec fn calls_fit<V: PartialEq>(calls: Seq<LogCall<V>>) -> bool
    decreases calls.len(),
{
    calls.len() > 0 ==> {
        &&& calls_fit(calls.drop_last())
        &&& calls.last() matches LogCall::Enter(p, _) ==> 0 <= p < logs_after(
            calls.drop_last(),
        ).len()
    }
}

/// The states that `calls` entered into the log at `place`.
pub open spec fn told<V>(calls: Seq<LogCall<V>>, place: int) -> Seq<State<V>>
    decreases calls.len(),
{
    if calls.len() == 0 {
        Seq::empty()
    } else {
        let before = told(calls.drop_last(), place);
        match calls.last() {
            LogCall::Enter(p, state) => if p == place {
                before.push(state)
            } else {
                before
            },
            LogCall::New => before,
        }
    }
}

proof fn lemma_log_after<V: PartialEq>(calls: Seq<LogCall<V>>, place: int)
    requires
        calls_fit(calls),
    ensures
        place >= logs_after(calls).len() ==> told(calls, place).len() == 0,
        0 <= place < logs_after(calls).len() ==> logs_after(calls)[place] == log_of(
            told(calls, place),
        ),
    decreases calls.len(),
{
    if calls.len() > 0 {
        let front = calls.drop_last();
        lemma_log_after(front, place);
        let states = told(front, place);
        match calls.last() {
            LogCall::New => {
                if place == logs_after(front).len() {
                    assert(log_of(states) =~= Seq::<State<V>>::empty());
                }
            },
            LogCall::Enter(p, state) => {
                if p == place {
                    assert(states.push(state).drop_last() =~= states);
                }
            },
        }
    }
}

/// Whatever was done with any number of logs, through any of their handles: two logs are equal
/// exactly if the same states were entered into both, whatever the order and however often.
/// Clones of a handle stand at one place, so a log is always equal to its clones, and new logs
/// are equal. Values have to be comparable at all, unless there are none.
pub proof fn law_logs_are_what_they_were_told<V: PartialEq>(
    calls: Seq<LogCall<V>>,
    p: int,
    q: int,
)
    requires
        calls_fit(calls),
        0 <= p < logs_after(calls).len(),
        0 <= q < logs_after(calls).len(),
        lawful_eq::<V>() || (no_values(told(calls, p)) && no_values(told(calls, q))),
    ensures
        equal_logs(logs_after(calls)[p], logs_after(calls)[q]) <==> same_states(
            told(calls, p),
            told(calls, q),
        ),
        p == q ==> equal_logs(logs_after(calls)[p], logs_after(calls)[q]),
{
    lemma_log_after(calls, p);
    lemma_log_after(calls, q);
    law_equal_logs_were_told_the_same(told(calls, p), told(calls, q));
}

/// What is entered that a node was unfolded is seen through every clone of the handle: the log
/// holds that state and all that it held before, and nothing else. Entering it again changes
/// nothing, another time for the same node is another state, and no other log is touched.
pub proof fn law_unfold_adds_one_state<V: PartialEq>(
    logs: Seq<Seq<State<V>>>,
    log: StateLog,
    clone: StateLog,
    id: usize,
    time: usize,
    state: State<V>,
)
    requires
        log.stands_in(logs),
        clone == log,
    ensures
        ({
            let new = State::<V>::Unfold { id, time };
            let after = logs.update(log.place(), entered(logs[log.place()], new));
            let again = after.update(log.place(), entered(after[log.place()], new));
            &&& holds(after[clone.place()], state) <==> holds(logs[clone.place()], state) || state
                == new
            &&& again == after
            &&& forall|p: int| 0 <= p < logs.len() && p != log.place() ==> after[p] == logs[p]
        }),
        forall|other_time: usize|
            other_time != time ==> !(State::<V>::Unfold { id, time }).eq_spec(
                &(#[trigger] State::<V>::Unfold { id, time: other_time }),
            ),
{
    let new = State::<V>::Unfold { id, time };
    let before = logs[log.place()];
    let now = entered(before, new);
    assert(new.eq_spec(&state) <==> state == new);
    if holds(before, state) {
        let i = choose|i: int| 0 <= i < before.len() && (#[trigger] before[i]).eq_spec(&state);
        assert(now[i].eq_spec(&state));
    }
    if !holds(before, new) {
        assert(now[before.len() as int].eq_spec(&new));
    }
    assert(holds(now, new));
    if holds(now, state) {
        let i = choose|i: int| 0 <= i < now.len() && (#[trigger] now[i]).eq_spec(&state);
        if i < before.len() {
            assert(before[i].eq_spec(&state));
        }
    }
    let after = logs.update(log.place(), now);
    assert(after.update(log.place(), entered(after[log.place()], new)) =~= after);
}

/// Two lists of states are parts of each other exactly if they hold the same states.
proof fn lemma_parts<V: PartialEq>(a: Seq<State<V>>, b: Seq<State<V>>)
    requires
        lawful_eq::<V>() || (no_values(a) && no_values(b)),
    ensures
        part_of(a, b) && part_of(b, a) <==> same_states(a, b),
{
    if part_of(a, b) && part_of(b, a) {
        assert forall|state: State<V>| #[trigger] holds(a, state) <==> holds(b, state) by {
            if holds(a, state) {
                lemma_part_holds(a, b, state);
            }
            if holds(b, state) {
                lemma_part_holds(b, a, state);
            }
        }
    }
    if same_states(a, b) {
        assert forall|i: int| 0 <= i < a.len() implies #[trigger] holds(b, a[i]) by {
            lemma_same_as(a[i], a[i], a[i]);
            assert(holds(a, a[i]));
        }
        assert forall|i: int| 0 <= i < b.len() implies #[trigger] holds(a, b[i]) by {
            lemma_same_as(b[i], b[i], b[i]);
            assert(holds(b, b[i]));
            assert(holds(a, b[i]) <==> holds(b, b[i]));
        }
    }
}

proof fn lemma_part_holds<V: PartialEq>(a: Seq<State<V>>, b: Seq<State<V>>, state: State<V>)
    requires
        lawful_eq::<V>() || no_values(b),
        part_of(a, b),
        holds(a, state),
    ensures
        holds(b, state),
{
    let i = choose|i: int| 0 <= i < a.len() && (#[trigger] a[i]).eq_spec(&state);
    assert(holds(b, a[i]));
    let j = choose|j: int| 0 <= j < b.len() && (#[trigger] b[j]).eq_spec(&a[i]);
    lemma_same_as(b[j], a[i], state);
    assert(b[j].eq_spec(&state));
}

proof fn lemma_holds_is_contains<V: PartialEq>(states: Seq<State<V>>, state: State<V>)
    requires
        obeys_concrete_eq::<V>(),
    ensures
        holds(states, state) <==> states.contains(state),
{
    reveal(obeys_concrete_eq);
    if holds(states, state) {
        let i = choose|i: int| 0 <= i < states.len() && (#[trigger] states[i]).eq_spec(&state);
        assert(states[i] == state);
    }
    if states.contains(state) {
        let i = states.index_of(state);
        assert(states[i].eq_spec(&state));
    }
}

/// Where equality of values is what it says, a log is a set of states: entering a state adds
/// it to the set.
pub proof fn law_entering_adds_to_the_set<V: PartialEq>(states: Seq<State<V>>, state: State<V>)
    requires
        obeys_concrete_eq::<V>(),
    ensures
        entered(states, state).to_set() == states.to_set().insert(state),
{
    lemma_holds_is_contains(states, state);
    let after = entered(states, state);
    assert forall|s: State<V>| after.contains(s) <==> states.contains(s) || s == state by {
        if states.contains(s) {
            let i = states.index_of(s);
            assert(after[i] == s);
        }
        if s == state && !holds(states, state) {
            assert(after[states.len() as int] == s);
        }
        if after.contains(s) {
            let i = after.index_of(s);
            if i < states.len() {
                assert(states[i] == s);
            }
        }
    }
    assert(after.to_set() =~= states.to_set().insert(state));
}

/// Where equality of values is what it says, logs are equal exactly if they are the same set.
pub proof fn law_equal_logs_are_equal_sets<V: PartialEq>(a: Seq<State<V>>, b: Seq<State<V>>)
    requires
        obeys_concrete_eq::<V>(),
    ensures
        equal_logs(a, b) <==> a.to_set() == b.to_set(),
{
    assert forall|s: State<V>| true implies (holds(a, s) <==> #[trigger] a.contains(s)) by {
        lemma_holds_is_contains(a, s);
    }
    assert forall|s: State<V>| true implies (holds(b, s) <==> #[trigger] b.contains(s)) by {
        lemma_holds_is_contains(b, s);
    }
    if part_of(a, b) && part_of(b, a) {
        assert forall|s: State<V>| a.contains(s) <==> b.contains(s) by {
            if a.contains(s) {
                assert(holds(b, a[a.index_of(s)]));
            }
            if b.contains(s) {
                assert(holds(a, b[b.index_of(s)]));
            }
        }
        assert(a.to_set() =~= b.to_set());
    }
    if a.to_set() == b.to_set() {
        assert forall|i: int| 0 <= i < a.len() implies #[trigger] holds(b, a[i]) by {
            assert(a.to_set().contains(a[i]));
            assert(b.contains(a[i]));
        }
        assert forall|i: int| 0 <= i < b.len() implies #[trigger] holds(a, b[i]) by {
            assert(b.to_set().contains(b[i]));
            assert(a.contains(b[i]));
        }
    }
}

/// The order in which two states are entered leaves no trace.
pub proof fn law_order_of_entries_is_irrelevant<V: PartialEq>(
    states: Seq<State<V>>,
    a: State<V>,
    b: State<V>,
)
    requires
        obeys_concrete_eq::<V>(),
    ensures
        equal_logs(entered(entered(states, a), b), entered(entered(states, b), a)),
{
    law_entering_adds_to_the_set(states, a);
    law_entering_adds_to_the_set(states, b);
    law_entering_adds_to_the_set(entered(states, a), b);
    law_entering_adds_to_the_set(entered(states, b), a);
    let left = entered(entered(states, a), b);
    let right = entered(entered(states, b), a);
    assert(left.to_set() =~= right.to_set());
    law_equal_logs_are_equal_sets(left, right);
}

/// States are the same if they tell the same: two unfoldings if node and time are the same, two
/// ends if neither has a value or the values are equal. An unfolding is never an end.
pub proof fn law_when_states_are_the_same<V: PartialEq>(
    id: usize,
    time: usize,
    other_id: usize,
    other_time: usize,
    v: V,
    w: V,
)
    ensures
        ({
            let unfold = State::<V>::Unfold { id, time };
            let other = State::<V>::Unfold { id: other_id, time: other_time };
            let failed = State::<V>::Done { value: None };
            let done = State::<V>::Done { value: Some(v) };
            let also_done = State::<V>::Done { value: Some(w) };
            &&& unfold.eq_spec(&other) <==> id == other_id && time == other_time
            &&& failed.eq_spec(&failed)
            &&& done.eq_spec(&also_done) <==> v.eq_spec(&w)
            &&& !failed.eq_spec(&done) && !done.eq_spec(&failed)
            &&& !unfold.eq_spec(&failed) && !failed.eq_spec(&unfold)
            &&& !unfold.eq_spec(&done) && !done.eq_spec(&unfold)
        }),
{
}

/// A log holds exactly what was entered into it: a state is in it if and only if the same state
/// was entered at some time. What is entered first stands first, and nothing twice.
pub proof fn law_a_log_holds_what_was_entered<V: PartialEq>(calls: Seq<State<V>>, state: State<V>)
    requires
        lawful_eq::<V>() || no_values(calls),
    ensures
        holds(log_of(calls), state) <==> exists|i: int|
            0 <= i < calls.len() && (#[trigger] calls[i]).eq_spec(&state),
        holds(log_of(calls), state) <==> exists|i: int|
            0 <= i < log_of(calls).len() && (#[trigger] log_of(calls)[i]).eq_spec(&state),
        log_of(calls).len() <= calls.len(),
{
    lemma_log_holds(calls, state);
    lemma_log_is_not_longer(calls);
}

proof fn lemma_log_is_not_longer<V: PartialEq>(calls: Seq<State<V>>)
    ensures
        log_of(calls).len() <= calls.len(),
    decreases calls.len(),
{
    if calls.len() > 0 {
        lemma_log_is_not_longer(calls.drop_last());
    }
}

/// Entering a state keeps what was there, in its place, and puts the state behind it unless the
/// same state is there already.
pub proof fn law_entering_keeps_what_was_there<V: PartialEq>(
    states: Seq<State<V>>,
    state: State<V>,
    i: int,
)
    requires
        0 <= i < states.len(),
    ensures
        entered(states, state)[i] == states[i],
        entered(states, state).len() == states.len() || entered(states, state).len()
            == states.len() + 1 && entered(states, state).last() == state,
        states[i].eq_spec(&state) ==> entered(states, state) == states,
        (forall|j: int| 0 <= j < states.len() ==> !(#[trigger] states[j]).eq_spec(&state))
            ==> entered(states, state) == states.push(state),
        entered(Seq::empty(), state) == seq![state],
{
    assert(entered(Seq::empty(), state) =~= seq![state]);
}

/// Of equal logs each state of one is in the other; a log that lacks a state of another is not
/// equal to it.
pub proof fn law_equal_logs_lack_nothing<V: PartialEq>(
    a: Seq<State<V>>,
    b: Seq<State<V>>,
    i: int,
)
    requires
        0 <= i < a.len(),
    ensures
        equal_logs(a, b) || equal_logs(b, a) ==> exists|j: int|
            0 <= j < b.len() && (#[trigger] b[j]).eq_spec(&a[i]),
{
    if equal_logs(a, b) || equal_logs(b, a) {
        assert(holds(b, a[i]));
    }
}

/// A log is a part of another in which each of its states has the same state, at the place that
/// `f` says. Logs that are parts of each other are equal, and no others are.
pub proof fn law_logs_that_lack_nothing_are_equal<V: PartialEq>(
    a: Seq<State<V>>,
    b: Seq<State<V>>,
    f: spec_fn(int) -> int,
)
    requires
        forall|i: int|
            #![trigger a[i]]
            0 <= i < a.len() ==> 0 <= f(i) < b.len() && b[f(i)].eq_spec(&a[i]),
    ensures
        part_of(a, b),
        equal_logs(a, b) <==> part_of(b, a),
        equal_logs(b, a) <==> part_of(b, a),
{
    assert forall|i: int| 0 <= i < a.len() implies #[trigger] holds(b, a[i]) by {
        assert(b[f(i)].eq_spec(&a[i]));
    }
}

} // verus!
