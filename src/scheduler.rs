//! The priority queue of tasks and the run that drains it.

use vstd::prelude::*;

use crate::task::{rank, Executable, Priority, TaskError};

verus! {

/// Entries are stored least urgent first, so that the next entry to run is
/// the last one: ranks never increase along the sequence.
pub open spec fn queue_sorted<T>(s: Seq<(Priority, T)>) -> bool {
    forall|i: int, j: int| 0 <= i < j < s.len() ==> rank(#[trigger] s[i].0) >= rank(#[trigger] s[j].0)
}

/// Index at which a new entry of class `p` is stored: behind every entry that
/// is at most as urgent, in front of every entry that is more urgent.
pub open spec fn slot<T>(s: Seq<(Priority, T)>, p: Priority) -> nat
    decreases s.len(),
{
    if s.len() == 0 || rank(s.last().0) >= rank(p) {
        s.len()
    } else {
        slot(s.drop_last(), p)
    }
}

/// The queue after adding entry `e` to queue `s`.
pub open spec fn enqueue<T>(s: Seq<(Priority, T)>, e: (Priority, T)) -> Seq<(Priority, T)> {
    s.insert(slot(s, e.0) as int, e)
}

/// Order in which a run takes the entries of queue `s`: from the last to the first.
pub open spec fn drain_order<T>(s: Seq<(Priority, T)>) -> Seq<(Priority, T)> {
    s.reverse()
}

/// The queue built by adding the entries of `adds`, in that order, to an
/// empty scheduler.
pub open spec fn queue_after<T>(adds: Seq<(Priority, T)>) -> Seq<(Priority, T)>
    decreases adds.len(),
{
    if adds.len() == 0 {
        Seq::empty()
    } else {
        enqueue(queue_after(adds.drop_last()), adds.last())
    }
}

proof fn lemma_slot_bounds<T>(s: Seq<(Priority, T)>, p: Priority)
    requires
        queue_sorted(s),
    ensures
        slot(s, p) <= s.len(),
        forall|k: int| 0 <= k < slot(s, p) ==> rank(#[trigger] s[k].0) >= rank(p),
        forall|k: int| slot(s, p) <= k < s.len() ==> rank(#[trigger] s[k].0) < rank(p),
    decreases s.len(),
{
    if s.len() == 0 {
    } else if rank(s.last().0) >= rank(p) {
        assert forall|k: int| 0 <= k < s.len() implies rank(#[trigger] s[k].0) >= rank(p) by {
            if k < s.len() - 1 {
                assert(rank(s[k].0) >= rank(s[s.len() - 1].0));
            }
        }
    } else {
        let t = s.drop_last();
        assert(queue_sorted(t));
        lemma_slot_bounds(t, p);
        assert forall|k: int| 0 <= k < slot(s, p) implies rank(#[trigger] s[k].0) >= rank(p) by {
            assert(s[k] == t[k]);
        }
        assert forall|k: int| slot(s, p) <= k < s.len() implies rank(#[trigger] s[k].0) < rank(p) by {
            if k < s.len() - 1 {
                assert(s[k] == t[k]);
            }
        }
    }
}

/// Adding an entry keeps a sorted queue sorted.
proof fn lemma_enqueue_sorted<T>(s: Seq<(Priority, T)>, e: (Priority, T))
    requires
        queue_sorted(s),
    ensures
        queue_sorted(enqueue(s, e)),
        enqueue(s, e).len() == s.len() + 1,
{
    lemma_slot_bounds(s, e.0);
    let pos = slot(s, e.0) as int;
    s.insert_ensures(pos, e);
    let r = enqueue(s, e);
    assert forall|i: int, j: int| 0 <= i < j < r.len() implies rank(#[trigger] r[i].0) >= rank(#[trigger] r[j].0) by {
        if j < pos {
            assert(r[i] == s[i] && r[j] == s[j]);
        } else if j == pos {
            assert(r[i] == s[i]);
        } else if i < pos {
            assert(r[i] == s[i] && r[j] == s[j - 1]);
        } else if i == pos {
            assert(r[j] == s[j - 1]);
        } else {
            assert(r[i] == s[i - 1] && r[j] == s[j - 1]);
        }
    }
}

proof fn lemma_queue_after_sorted<T>(adds: Seq<(Priority, T)>)
    ensures
        queue_sorted(queue_after(adds)),
        queue_after(adds).to_multiset() =~= adds.to_multiset(),
    decreases adds.len(),
{
    if adds.len() > 0 {
        let prev = adds.drop_last();
        lemma_queue_after_sorted(prev);
        let q = queue_after(prev);
        lemma_slot_bounds(q, adds.last().0);
        lemma_enqueue_sorted(q, adds.last());
        vstd::seq_lib::to_multiset_insert(q, slot(q, adds.last().0) as int, adds.last());
        assert(adds =~= prev.push(adds.last()));
        vstd::seq_lib::to_multiset_build(prev, adds.last());
        assert(queue_after(adds).to_multiset() =~= q.to_multiset().insert(adds.last()));
        assert(adds.to_multiset() =~= prev.to_multiset().insert(adds.last()));
    } else {
        assert(queue_after(adds) =~= adds);
    }
}

/// Whatever tasks were added, in whatever order, a run takes them class by
/// class: no entry is followed by one of a more urgent class.
pub proof fn law_drain_by_priority<T>(adds: Seq<(Priority, T)>)
    ensures
        forall|i: int, j: int|
            0 <= i < j < adds.len() ==> rank(#[trigger] drain_order(queue_after(adds))[i].0) <= rank(
                #[trigger] drain_order(queue_after(adds))[j].0,
            ),
{
    lemma_queue_after_sorted(adds);
    let q = queue_after(adds);
    q.to_multiset_ensures();
    adds.to_multiset_ensures();
    assert forall|i: int, j: int| 0 <= i < j < adds.len() implies rank(
        #[trigger] drain_order(q)[i].0,
    ) <= rank(#[trigger] drain_order(q)[j].0) by {
        assert(drain_order(q)[i] == q[q.len() - 1 - i]);
        assert(drain_order(q)[j] == q[q.len() - 1 - j]);
    }
}

/// A run takes every added entry exactly once: the drained entries are the
/// added ones, with the same multiplicities, whatever the order of adding.
pub proof fn law_each_entry_once<T>(adds: Seq<(Priority, T)>)
    ensures
        drain_order(queue_after(adds)).len() == adds.len(),
        drain_order(queue_after(adds)).to_multiset() =~= adds.to_multiset(),
{
    lemma_queue_after_sorted(adds);
    let q = queue_after(adds);
    q.lemma_reverse_to_multiset();
    q.to_multiset_ensures();
    adds.to_multiset_ensures();
}

/// Whether an entry belongs to class `c`.
pub open spec fn in_class<T>(c: Priority) -> spec_fn((Priority, T)) -> bool {
    |e: (Priority, T)| e.0 == c
}

/// The entries of `s` whose class is `c`, in the order of `s`.
pub open spec fn of_class<T>(s: Seq<(Priority, T)>, c: Priority) -> Seq<(Priority, T)> {
    s.filter(in_class(c))
}

proof fn lemma_filter_single<A>(x: A, pred: spec_fn(A) -> bool)
    ensures
        seq![x].filter(pred) == (if pred(x) {
            seq![x]
        } else {
            Seq::<A>::empty()
        }),
{
    reveal_with_fuel(Seq::filter, 2);
    assert(seq![x].drop_last() =~= Seq::<A>::empty());
    assert(Seq::<A>::empty().push(x) =~= seq![x]);
}

proof fn lemma_filter_reverse<A>(s: Seq<A>, pred: spec_fn(A) -> bool)
    ensures
        s.reverse().filter(pred) == s.filter(pred).reverse(),
    decreases s.len(),
{
    reveal(Seq::filter);
    if s.len() == 0 {
        assert(s.reverse() =~= s);
        assert(s.filter(pred).reverse() =~= s.filter(pred));
    } else {
        let t = s.drop_last();
        let x = s.last();
        lemma_filter_reverse(t, pred);
        assert(s.reverse() =~= seq![x] + t.reverse());
        Seq::filter_distributes_over_add(seq![x], t.reverse(), pred);
        lemma_filter_single(x, pred);
        if pred(x) {
            assert(s.filter(pred) == t.filter(pred).push(x));
            assert(t.filter(pred).push(x).reverse() =~= seq![x] + t.filter(pred).reverse());
        } else {
            assert(s.filter(pred) == t.filter(pred));
            assert(Seq::<A>::empty() + t.filter(pred).reverse() =~= t.filter(pred).reverse());
        }
    }
}

proof fn lemma_enqueue_of_class<T>(s: Seq<(Priority, T)>, e: (Priority, T), c: Priority)
    requires
        queue_sorted(s),
    ensures
        of_class(enqueue(s, e), c) == (if e.0 == c {
            of_class(s, c).push(e)
        } else {
            of_class(s, c)
        }),
{
    let pred = in_class::<T>(c);
    lemma_slot_bounds(s, e.0);
    let pos = slot(s, e.0) as int;
    let a = s.subrange(0, pos);
    let b = s.subrange(pos, s.len() as int);
    assert(s =~= a + b);
    assert(enqueue(s, e) =~= a + (seq![e] + b));
    Seq::filter_distributes_over_add(a, b, pred);
    Seq::filter_distributes_over_add(a, seq![e] + b, pred);
    Seq::filter_distributes_over_add(seq![e], b, pred);
    lemma_filter_single(e, pred);
    if e.0 == c {
        assert forall|k: int| 0 <= k < b.len() implies !pred(#[trigger] b[k]) by {
            assert(b[k] == s[pos + k]);
            assert(rank(b[k].0) < rank(e.0));
        }
        assert(b.all(|x: (Priority, T)| !pred(x)));
        b.lemma_all_neg_filter_empty(pred);
        assert(b.filter(pred) =~= Seq::<(Priority, T)>::empty());
        assert(a.filter(pred) + (seq![e] + b.filter(pred)) =~= (a.filter(pred) + b.filter(pred)).push(e));
    } else {
        assert(a.filter(pred) + (Seq::<(Priority, T)>::empty() + b.filter(pred)) =~= a.filter(pred)
            + b.filter(pred));
    }
}

proof fn lemma_queue_after_of_class<T>(adds: Seq<(Priority, T)>, c: Priority)
    ensures
        of_class(queue_after(adds), c) == of_class(adds, c),
    decreases adds.len(),
{
    reveal(Seq::filter);
    if adds.len() == 0 {
        assert(queue_after(adds) =~= adds);
    } else {
        let prev = adds.drop_last();
        lemma_queue_after_of_class(prev, c);
        lemma_queue_after_sorted(prev);
        lemma_enqueue_of_class(queue_after(prev), adds.last(), c);
    }
}

/// Within one class a run takes the entries latest added first: the drained
/// entries of class `c` are the added ones of that class, in reverse order.
pub proof fn law_latest_first_within_class<T>(adds: Seq<(Priority, T)>, c: Priority)
    ensures
        of_class(drain_order(queue_after(adds)), c) == of_class(adds, c).reverse(),
{
    lemma_queue_after_of_class(adds, c);
    lemma_filter_reverse(queue_after(adds), in_class::<T>(c));
}

/// What became of one task in a run: the entry that ran, handed back, and
/// what its execution returned.
pub struct Outcome<T> {
    pub priority: Priority,
    pub task: T,
    pub result: Result<(), TaskError>,
}

/// A queue of tasks ordered by priority class.
pub struct Scheduler<T> {
    entries: Vec<(Priority, T)>,
}

impl<T> View for Scheduler<T> {
    type V = Seq<(Priority, T)>;

    closed spec fn view(&self) -> Seq<(Priority, T)> {
        self.entries@
    }
}

impl<T> Scheduler<T> {
    #[verifier::type_invariant]
    closed spec fn sorted(&self) -> bool {
        queue_sorted(self.entries@)
    }

    /// Moves every entry out, leaving the scheduler empty.
    fn take_entries(&mut self) -> (r: Vec<(Priority, T)>)
        ensures
            r@ == old(self)@,
            queue_sorted(r@),
            final(self)@ == Seq::<(Priority, T)>::empty(),
    {
        let mut taken = Scheduler { entries: Vec::new() };
        core::mem::swap(self, &mut taken);
        proof {
            use_type_invariant(&taken);
        }
        taken.entries
    }

    /// An empty scheduler.
    pub fn new() -> (r: Scheduler<T>)
        ensures
            r@ == Seq::<(Priority, T)>::empty(),
    {
        Scheduler { entries: Vec::new() }
    }

    /// Number of queued entries.
    pub fn len(&self) -> (r: usize)
        ensures
            r == self@.len(),
    {
        self.entries.len()
    }

    /// Whether no entry is queued.
    pub fn is_empty(&self) -> (r: bool)
        ensures
            r <==> self@.len() == 0,
    {
        self.entries.len() == 0
    }

    /// Queues `task` under `priority`. The new entry will run after every
    /// queued entry of a more urgent class and before every queued entry of
    /// its own or a less urgent class.
    pub fn add_task(&mut self, priority: Priority, task: T)
        ensures
            final(self)@ == enqueue(old(self)@, (priority, task)),
            queue_sorted(final(self)@),
    {
        let mut entries = self.take_entries();
        let ghost s = entries@;
        let mut i: usize = entries.len();
        assert(s.subrange(0, i as int) =~= s);
        while i > 0 && entries[i - 1].0.rank() < priority.rank()
            invariant
                0 <= i <= s.len(),
                entries@ == s,
                slot(s, priority) == slot(s.subrange(0, i as int), priority),
            decreases i,
        {
            assert(s.subrange(0, i as int).drop_last() =~= s.subrange(0, i - 1));
            i = i - 1;
        }
        proof {
            lemma_enqueue_sorted(s, (priority, task));
        }
        entries.insert(i, (priority, task));
        *self = Scheduler { entries };
    }

    /// Removes and returns the entry that runs next: one of the most urgent
    /// class, the most recently added of them.
    pub fn next_task(&mut self) -> (r: Option<(Priority, T)>)
        ensures
            old(self)@.len() == 0 ==> r is None && final(self)@ == old(self)@,
            old(self)@.len() > 0 ==> r == Some(drain_order(old(self)@)[0])
                && final(self)@ == old(self)@.drop_last(),
    {
        let mut entries = self.take_entries();
        let r = entries.pop();
        *self = Scheduler { entries };
        r
    }
}

impl<T: Executable> Scheduler<T> {
    /// Drains the queue, executing each entry once in drain order. A failing
    /// task does not stop the run; every outcome is returned, in the order
    /// the tasks ran.
    pub fn run_all(self) -> (r: Vec<Outcome<T>>)
        ensures
            r@.len() == self@.len(),
            forall|k: int|
                0 <= k < r@.len() ==> ((#[trigger] r@[k]).priority, r@[k].task) == drain_order(self@)[k],
    {
        let ghost start = self@;
        let mut queue = self;
        let mut outcomes: Vec<Outcome<T>> = Vec::new();
        while !queue.is_empty()
            invariant
                outcomes@.len() <= start.len(),
                queue@ == start.subrange(0, start.len() - outcomes@.len()),
                forall|k: int|
                    0 <= k < outcomes@.len() ==> ((#[trigger] outcomes@[k]).priority, outcomes@[k].task)
                        == drain_order(start)[k],
            decreases queue@.len(),
        {
            match queue.next_task() {
                Some((priority, task)) => {
                    let result = task.execute();
                    outcomes.push(Outcome { priority, task, result });
                },
                None => {},
            }
        }
        outcomes
    }
}

} // verus!
