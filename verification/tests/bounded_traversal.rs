use mononoke::bounded_traversal::state_log::{State, StateLog, StateLogs};
use mononoke::bounded_traversal::tick::{Tick, TickEvent};
use mononoke::bounded_traversal::tree::Tree;
use std::cmp::Ordering;
use std::collections::{BTreeSet, VecDeque};

#[test]
fn test_tick() {
    let mut log = Vec::new();
    let mut reference = Vec::new();
    let mut tick = Tick::new();

    tick.sleep(3, 3);
    tick.sleep(1, 1);
    tick.sleep(2, 2);

    let mut step = |log: &mut Vec<(i32, usize)>| {
        let (now, woken) = tick.tick();
        for delay in woken {
            log.push((delay, now));
        }
    };

    step(&mut log);
    reference.push((1, 1));
    assert_eq!(log, reference);

    step(&mut log);
    reference.push((2, 2));
    assert_eq!(log, reference);

    step(&mut log);
    reference.push((3, 3));
    assert_eq!(log, reference);
}

/// Unfolds a tree with at most `limit` nodes asleep at the same time; each sleeps for one
/// tick before it is unfolded.
struct Traversal {
    limit: usize,
    tick: Tick<Tree>,
    asleep: usize,
    waiting: VecDeque<Tree>,
    items: Vec<usize>,
}

impl Traversal {
    fn new(limit: usize, root: Tree) -> Self {
        let mut traversal = Traversal {
            limit,
            tick: Tick::new(),
            asleep: 0,
            waiting: VecDeque::from(vec![root]),
            items: vec![],
        };
        traversal.schedule();
        traversal
    }

    fn schedule(&mut self) {
        while self.asleep < self.limit {
            match self.waiting.pop_front() {
                Some(node) => {
                    self.tick.sleep(1, node);
                    self.asleep += 1;
                }
                None => return,
            }
        }
    }

    fn step(&mut self, logs: &mut StateLogs<BTreeSet<usize>>, log: StateLog) {
        let (now, woken) = self.tick.tick();
        for Tree { id, children } in woken {
            self.asleep -= 1;
            log.unfold(logs, id, now);
            self.items.push(id);
            for child in children {
                self.waiting.push_front(child);
            }
            self.schedule();
        }
        if self.asleep == 0 && self.waiting.is_empty() {
            log.done(logs, Some(self.items.iter().cloned().collect()));
        }
    }
}

#[test]
fn a_traversal_of_two_nodes_at_a_time_is_logged() {
    // tree
    //      0
    //     / \
    //    1   2
    //   /   / \
    //  5   3   4
    let tree = Tree::new(
        0,
        vec![
            Tree::new(1, vec![Tree::leaf(5)]),
            Tree::new(2, vec![Tree::leaf(3), Tree::leaf(4)]),
        ],
    );

    let mut logs: StateLogs<BTreeSet<usize>> = StateLogs::new();
    let log = StateLog::new(&mut logs);
    let reference = StateLog::new(&mut logs);
    let mut traverse = Traversal::new(2, tree);
    assert!(log.eq(&logs, &reference));

    traverse.step(&mut logs, log.clone());
    reference.unfold(&mut logs, 0, 1);
    assert!(log.eq(&logs, &reference));

    traverse.step(&mut logs, log.clone());
    reference.unfold(&mut logs, 1, 2);
    reference.unfold(&mut logs, 2, 2);
    assert!(log.eq(&logs, &reference));

    traverse.step(&mut logs, log.clone());
    reference.unfold(&mut logs, 5, 3);
    reference.unfold(&mut logs, 4, 3);
    assert!(log.eq(&logs, &reference));

    traverse.step(&mut logs, log.clone());
    reference.unfold(&mut logs, 3, 4);
    reference.done(&mut logs, Some((0..6).collect()));
    assert!(log.eq(&logs, &reference));
}

#[test]
fn sleepers_with_one_time_wake_together() {
    let mut tick = Tick::new();
    tick.sleep(2, "a");
    tick.sleep(1, "b");
    assert_eq!(tick.tick(), (1, vec!["b"]));
    tick.sleep(1, "c");
    tick.sleep(0, "d");
    assert_eq!(tick.now(), 1);
    assert_eq!(tick.tick(), (2, vec!["d", "a", "c"]));
    assert_eq!(tick.tick(), (3, vec![]));
}

#[test]
fn no_delay_wakes_at_the_next_tick() {
    let mut tick = Tick::new();
    tick.sleep(0, 'x');
    assert_eq!(tick.tick(), (1, vec!['x']));
}

#[test]
fn the_later_sleeper_is_the_smaller_one() {
    let early = TickEvent { time: 1, sender: "early" };
    let late = TickEvent { time: 2, sender: "late" };
    let other = TickEvent { time: 2, sender: "other" };
    assert!(late < early);
    assert!(late == other);
    assert!(early != late);
    assert_eq!(early.cmp(&late), Ordering::Greater);
    assert_eq!(late.cmp(&early), Ordering::Less);
    assert_eq!(late.partial_cmp(&other), Some(Ordering::Equal));
}

#[test]
fn logs_are_sets() {
    let mut logs: StateLogs<u32> = StateLogs::new();
    let a = StateLog::new(&mut logs);
    let b = StateLog::new(&mut logs);
    a.unfold(&mut logs, 1, 1);
    a.unfold(&mut logs, 2, 1);
    a.done(&mut logs, Some(7));
    b.done(&mut logs, Some(7));
    b.unfold(&mut logs, 2, 1);
    assert!(!a.eq(&logs, &b));
    b.unfold(&mut logs, 1, 1);
    b.unfold(&mut logs, 1, 1);
    assert!(a.eq(&logs, &b));
    b.done(&mut logs, None);
    assert!(!a.eq(&logs, &b));
    a.done(&mut logs, None);
    assert!(a.eq(&logs, &b));
    a.unfold(&mut logs, 1, 2);
    assert!(!a.eq(&logs, &b));
}

#[test]
fn states_differ_by_kind_and_value() {
    let unfold: State<u32> = State::Unfold { id: 1, time: 2 };
    assert!(unfold == State::Unfold { id: 1, time: 2 });
    assert!(unfold != State::Unfold { id: 2, time: 1 });
    assert!(unfold != State::Done { value: None });
    let done: State<u32> = State::Done { value: Some(3) };
    assert!(done == State::Done { value: Some(3) });
    assert!(done != State::Done { value: Some(4) });
    assert!(done != State::Done { value: None });
}

#[test]
fn a_leaf_has_no_children() {
    let leaf = Tree::leaf(9);
    assert_eq!(leaf.id, 9);
    assert!(leaf.children.is_empty());
    let node = Tree::new(1, vec![leaf]);
    assert_eq!(node.children[0].id, 9);
}

/// Values that are equal without being the same.
#[derive(Clone, Debug)]
struct Loose(i32);

impl PartialEq for Loose {
    fn eq(&self, other: &Self) -> bool {
        self.0 % 10 == other.0 % 10
    }
}

#[test]
fn equality_of_logs_is_that_of_their_values() {
    let mut logs: StateLogs<Loose> = StateLogs::new();
    let a = StateLog::new(&mut logs);
    let b = StateLog::new(&mut logs);
    assert!(a.eq(&logs, &b));
    a.done(&mut logs, Some(Loose(3)));
    a.unfold(&mut logs, 1, 1);
    a.done(&mut logs, Some(Loose(13)));
    b.unfold(&mut logs, 1, 1);
    assert!(!a.eq(&logs, &b));
    b.done(&mut logs, Some(Loose(23)));
    b.unfold(&mut logs, 1, 1);
    assert!(a.eq(&logs, &b));
    assert!(a.eq(&logs, &a));
    b.done(&mut logs, None);
    assert!(!a.eq(&logs, &b));
}

#[test]
fn clones_share_a_log() {
    let mut logs: StateLogs<BTreeSet<usize>> = StateLogs::new();
    let log = StateLog::new(&mut logs);
    let clone = log.clone();
    let other = StateLog::new(&mut logs);
    log.unfold(&mut logs, 2, 1);
    assert!(clone.eq(&logs, &log));
    assert!(!clone.eq(&logs, &other));
    clone.done(&mut logs, Some((0..3).collect()));
    assert!(log.eq(&logs, &clone));
    other.done(&mut logs, Some((0..3).collect()));
    other.unfold(&mut logs, 2, 1);
    assert!(log.eq(&logs, &other));
    assert!(logs.has(&log) && logs.has(&clone) && logs.has(&other));
    let elsewhere: StateLogs<BTreeSet<usize>> = StateLogs::new();
    assert!(!elsewhere.has(&log));
}

#[test]
fn those_who_sleep_on_have_a_later_time() {
    let mut tick = Tick::new();
    for delay in [4, 2, 0, 3, 1, 2] {
        tick.sleep(delay, delay);
    }
    assert_eq!(tick.tick(), (1, vec![0, 1]));
    assert_eq!(tick.tick(), (2, vec![2, 2]));
    assert_eq!(tick.tick(), (3, vec![3]));
    assert_eq!(tick.tick(), (4, vec![4]));
    assert_eq!(tick.tick(), (5, vec![]));
}
