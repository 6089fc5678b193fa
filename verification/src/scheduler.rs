//! The queue of pending proposals, served by ascending timer and, among
//! equal timers, in the order in which they were enqueued.
//!
//! The proposals are kept in a binary heap. Each carries the ticket that it
//! drew when it was enqueued, and the heap is ordered by timer first and by
//! ticket second, so that enqueueing and serving take logarithmic time while
//! the order of service is that of a first-come-first-served queue.

use vstd::prelude::*;
use crate::road::RoadQuery;

verus! {

/// `i` is the place of the proposal that is served next: no proposal has a
/// lower timer, and every proposal enqueued before it has a higher one.
pub open spec fn is_next(queue: Seq<RoadQuery>, i: int) -> bool {
    &&& 0 <= i < queue.len()
    &&& forall|j: int| 0 <= j < queue.len() ==> queue[i].timer <= (#[trigger] queue[j]).timer
    &&& forall|j: int| 0 <= j < i ==> queue[i].timer < (#[trigger] queue[j]).timer
}

/// The place of the first proposal with the lowest timer among the first `n`.
pub open spec fn earliest(queue: Seq<RoadQuery>, n: int) -> int
    decreases n,
{
    if n <= 1 {
        0
    } else {
        let best = earliest(queue, n - 1);
        if queue[n - 1].timer < queue[best].timer {
            n - 1
        } else {
            best
        }
    }
}

/// The place of the proposal that is served next.
pub open spec fn next_index(queue: Seq<RoadQuery>) -> int {
    earliest(queue, queue.len() as int)
}

/// Among the first `n` proposals, `earliest` has the lowest timer and is the
/// first that has it.
pub proof fn lemma_earliest(queue: Seq<RoadQuery>, n: int)
    requires
        1 <= n <= queue.len(),
    ensures
        0 <= earliest(queue, n) < n,
        forall|j: int| 0 <= j < n ==> queue[earliest(queue, n)].timer <= (#[trigger] queue[j]).timer,
        forall|j: int|
            0 <= j < earliest(queue, n) ==> queue[earliest(queue, n)].timer < (
            #[trigger] queue[j]).timer,
    decreases n,
{
    if n > 1 {
        lemma_earliest(queue, n - 1);
    }
}

/// A queue that is not empty has exactly one proposal that is served next,
/// and `next_index` is its place.
pub proof fn lemma_next_unique(queue: Seq<RoadQuery>, i: int)
    requires
        queue.len() > 0,
    ensures
        is_next(queue, next_index(queue)),
        is_next(queue, i) ==> i == next_index(queue),
{
    lemma_earliest(queue, queue.len() as int);
    let k = next_index(queue);
    if is_next(queue, i) {
        if i < k {
            assert(queue[k].timer < queue[i].timer);
            assert(queue[i].timer <= queue[k].timer);
        }
        if k < i {
            assert(queue[i].timer < queue[k].timer);
            assert(queue[k].timer <= queue[i].timer);
        }
    }
}

/// A pending proposal with the ticket that it drew.
#[derive(Clone, Copy)]
struct Entry {
    ticket: u128,
    query: RoadQuery,
}

/// `a` is served no later than `b`.
spec fn before(a: Entry, b: Entry) -> bool {
    a.query.timer < b.query.timer || (a.query.timer == b.query.timer && a.ticket <= b.ticket)
}

/// Every entry but the root is served no earlier than its parent.
spec fn ordered(heap: Seq<Entry>) -> bool {
    forall|c: int| 1 <= c < heap.len() ==> before(heap[(c - 1) / 2], #[trigger] heap[c])
}

/// The heap is ordered but for the entry at `k`, which may have to rise:
/// it may come before its parent, and its children are in order with its
/// parent.
spec fn ordered_above(heap: Seq<Entry>, k: int) -> bool {
    &&& forall|c: int|
        1 <= c < heap.len() && c != k ==> before(heap[(c - 1) / 2], #[trigger] heap[c])
    &&& forall|c: int|
        1 <= c < heap.len() && (c - 1) / 2 == k && k >= 1 ==> before(
            heap[(k - 1) / 2],
            #[trigger] heap[c],
        )
}

/// The heap is ordered but for the entry at `k`, which may have to sink:
/// its children may come before it, and they are in order with its parent.
spec fn ordered_below(heap: Seq<Entry>, k: int) -> bool {
    &&& forall|c: int|
        1 <= c < heap.len() && (c - 1) / 2 != k ==> before(heap[(c - 1) / 2], #[trigger] heap[c])
    &&& forall|c: int|
        1 <= c < heap.len() && (c - 1) / 2 == k && k >= 1 ==> before(
            heap[(k - 1) / 2],
            #[trigger] heap[c],
        )
}

/// In an ordered heap the root is served first.
proof fn lemma_root_first(heap: Seq<Entry>, k: int)
    requires
        ordered(heap),
        0 <= k < heap.len(),
    ensures
        before(heap[0], heap[k]),
    decreases k,
{
    if k > 0 {
        lemma_root_first(heap, (k - 1) / 2);
        assert(before(heap[(k - 1) / 2], heap[k]));
    }
}

/// Where a position of the queue moves to when the position `gone` leaves.
spec fn closed_up(position: int, gone: int) -> int {
    if position > gone {
        position - 1
    } else {
        position
    }
}

/// The pending proposals, in the order in which they were enqueued.
pub struct Scheduler {
    heap: Vec<Entry>,
    issued: u128,
    pending: Ghost<Seq<RoadQuery>>,
    tickets: Ghost<Seq<u128>>,
    place: Ghost<Seq<int>>,
    rank: Ghost<Seq<int>>,
}

impl View for Scheduler {
    type V = Seq<RoadQuery>;

    closed spec fn view(&self) -> Seq<RoadQuery> {
        self.pending@
    }
}

impl Scheduler {
    /// The heap holds the pending proposals, one entry each: `place` leads
    /// from a position in the queue to the entry, `rank` leads back, and
    /// tickets rise along the queue.
    spec fn linked(&self) -> bool {
        let n = self.heap@.len();
        &&& self.pending@.len() == n
        &&& self.tickets@.len() == n
        &&& self.place@.len() == n
        &&& self.rank@.len() == n
        &&& forall|i: int|
            0 <= i < n ==> {
                &&& 0 <= #[trigger] self.place@[i] < n
                &&& self.rank@[self.place@[i]] == i
                &&& self.heap@[self.place@[i]].ticket == self.tickets@[i]
                &&& self.heap@[self.place@[i]].query == self.pending@[i]
            }
        &&& forall|k: int|
            0 <= k < n ==> 0 <= #[trigger] self.rank@[k] < n && self.place@[self.rank@[k]] == k
        &&& forall|i: int, j: int|
            0 <= i < j < n ==> #[trigger] self.tickets@[i] < #[trigger] self.tickets@[j]
        &&& forall|i: int| 0 <= i < n ==> #[trigger] self.tickets@[i] < self.issued
    }

    /// The queue is in order inside.
    pub closed spec fn wf(&self) -> bool {
        self.linked() && ordered(self.heap@)
    }

    /// The number of proposals that were ever enqueued.
    pub closed spec fn issued(&self) -> nat {
        self.issued as nat
    }

    /// An empty queue.
    pub fn new() -> (s: Scheduler)
        ensures
            s.wf(),
            s@ == Seq::<RoadQuery>::empty(),
            s.issued() == 0,
    {
        Scheduler {
            heap: Vec::new(),
            issued: 0,
            pending: Ghost(Seq::empty()),
            tickets: Ghost(Seq::empty()),
            place: Ghost(Seq::empty()),
            rank: Ghost(Seq::empty()),
        }
    }

    /// The number of pending proposals.
    pub fn len(&self) -> (n: usize)
        requires
            self.wf(),
        ensures
            n == self@.len(),
    {
        self.heap.len()
    }

    /// Whether nothing is pending.
    pub fn is_empty(&self) -> (r: bool)
        requires
            self.wf(),
        ensures
            r == (self@.len() == 0),
    {
        self.heap.len() == 0
    }

    /// Whether the entry at `a` is served no later than the entry at `b`.
    fn comes_before(&self, a: usize, b: usize) -> (r: bool)
        requires
            a < self.heap@.len(),
            b < self.heap@.len(),
        ensures
            r == before(self.heap@[a as int], self.heap@[b as int]),
    {
        let first: Entry = self.heap[a];
        let second: Entry = self.heap[b];
        first.query.timer < second.query.timer || (first.query.timer == second.query.timer
            && first.ticket <= second.ticket)
    }

    /// Exchanges two entries of the heap. The queue stays what it is.
    fn exchange(&mut self, a: usize, b: usize)
        requires
            old(self).linked(),
            a < old(self).heap@.len(),
            b < old(self).heap@.len(),
        ensures
            final(self).linked(),
            final(self).pending@ == old(self).pending@,
            final(self).tickets@ == old(self).tickets@,
            final(self).issued == old(self).issued,
            final(self).heap@ == old(self).heap@.update(a as int, old(self).heap@[b as int]).update(
                b as int,
                old(self).heap@[a as int],
            ),
            final(self).rank@[a as int] == old(self).rank@[b as int],
            final(self).rank@[b as int] == old(self).rank@[a as int],
    {
        let first: Entry = self.heap[a];
        let second: Entry = self.heap[b];
        self.heap.set(a, second);
        self.heap.set(b, first);
        let ghost first_rank = self.rank@[a as int];
        let ghost second_rank = self.rank@[b as int];
        self.place = Ghost(self.place@.update(first_rank, b as int).update(second_rank, a as int));
        self.rank = Ghost(self.rank@.update(a as int, second_rank).update(b as int, first_rank));
    }

    /// Enqueues `query` behind all pending proposals.
    pub fn push(&mut self, query: RoadQuery)
        requires
            old(self).wf(),
            old(self).issued() < u128::MAX,
        ensures
            final(self).wf(),
            final(self)@ == old(self)@.push(query),
            final(self).issued() == old(self).issued() + 1,
    {
        let n: usize = self.heap.len();
        self.heap.push(Entry { ticket: self.issued, query });
        self.issued = self.issued + 1;
        self.pending = Ghost(self.pending@.push(query));
        self.tickets = Ghost(self.tickets@.push((self.issued - 1) as u128));
        self.place = Ghost(self.place@.push(n as int));
        self.rank = Ghost(self.rank@.push(n as int));
        let mut k: usize = n;
        let mut settled: bool = false;
        while k > 0 && !settled
            invariant
                self.linked(),
                self.pending@ == old(self).pending@.push(query),
                self.issued == old(self).issued + 1,
                k < self.heap@.len(),
                settled ==> ordered(self.heap@),
                !settled ==> ordered_above(self.heap@, k as int),
            decreases
                    (if settled {
                        0
                    } else {
                        k + 1
                    }),
        {
            let parent: usize = (k - 1) / 2;
            if self.comes_before(parent, k) {
                settled = true;
            } else {
                self.exchange(parent, k);
                k = parent;
            }
        }
    }

    /// Takes out the proposal with the lowest timer, the one enqueued first
    /// where several have it. The others keep their order. `None` where
    /// nothing is pending.
    pub fn pop(&mut self) -> (r: Option<RoadQuery>)
        requires
            old(self).wf(),
        ensures
            final(self).wf(),
            final(self).issued() == old(self).issued(),
            old(self)@.len() == 0 ==> r is None && final(self)@ == old(self)@,
            old(self)@.len() > 0 ==> {
                &&& is_next(old(self)@, next_index(old(self)@))
                &&& r == Some(old(self)@[next_index(old(self)@)])
                &&& final(self)@ == old(self)@.remove(next_index(old(self)@))
            },
    {
        if self.heap.len() == 0 {
            return None;
        }
        proof {
            self.lemma_root_is_next();
        }
        let root: Entry = self.take_root();
        self.sink();
        Some(root.query)
    }

    /// Takes the root out of the heap and puts the last entry in its place.
    fn take_root(&mut self) -> (root: Entry)
        requires
            old(self).wf(),
            old(self).heap@.len() > 0,
        ensures
            final(self).linked(),
            ordered_below(final(self).heap@, 0),
            final(self).issued == old(self).issued,
            root == old(self).heap@[0],
            final(self).pending@ == old(self).pending@.remove(old(self).rank@[0]),
    {
        let n: usize = self.heap.len();
        let root: Entry = self.heap[0];
        let ghost gone = self.rank@[0];
        self.exchange(0, n - 1);
        let ghost linked_rank = self.rank@;
        let ghost linked_place = self.place@;
        let ghost linked_heap = self.heap@;
        self.heap.pop();
        self.pending = Ghost(self.pending@.remove(gone));
        self.tickets = Ghost(self.tickets@.remove(gone));
        self.place = Ghost(self.place@.remove(gone));
        self.rank = Ghost(Seq::new((n - 1) as nat, |k: int| closed_up(linked_rank[k], gone)));
        proof {
            assert(self.heap@ =~= linked_heap.drop_last());
            assert forall|i: int| 0 <= i < n - 1 implies {
                &&& 0 <= #[trigger] self.place@[i] < n - 1
                &&& self.rank@[self.place@[i]] == i
                &&& self.heap@[self.place@[i]].ticket == self.tickets@[i]
                &&& self.heap@[self.place@[i]].query == self.pending@[i]
            } by {
                let source = if i < gone { i } else { i + 1 };
                assert(self.place@[i] == linked_place[source]);
                assert(linked_rank[linked_place[source]] == source);
            }
            assert forall|k: int| 0 <= k < n - 1 implies 0 <= #[trigger] self.rank@[k] < n - 1
                && self.place@[self.rank@[k]] == k by {
                assert(linked_place[linked_rank[k]] == k);
            }
        }
        root
    }

    /// Lets the root sink to its place.
    fn sink(&mut self)
        requires
            old(self).linked(),
            ordered_below(old(self).heap@, 0),
        ensures
            final(self).linked(),
            ordered(final(self).heap@),
            final(self).issued == old(self).issued,
            final(self).pending@ == old(self).pending@,
    {
        let size: usize = self.heap.len();
        let mut k: usize = 0;
        let mut settled: bool = false;
        while !settled
            invariant
                self.linked(),
                self.pending@ == old(self).pending@,
                self.issued == old(self).issued,
                self.heap@.len() == size,
                k <= size,
                settled ==> ordered(self.heap@),
                !settled ==> ordered_below(self.heap@, k as int),
            decreases
                    (if settled {
                        0
                    } else {
                        size - k + 1
                    }),
        {
            if k >= size / 2 {
                settled = true;
            } else {
                let left: usize = 2 * k + 1;
                let right: usize = left + 1;
                let least: usize = if right < size && self.comes_before(right, left) {
                    right
                } else {
                    left
                };
                if self.comes_before(k, least) {
                    settled = true;
                } else {
                    self.exchange(k, least);
                    k = least;
                }
            }
        }
    }

    /// The root of the heap holds the proposal that is served next.
    proof fn lemma_root_is_next(&self)
        requires
            self.wf(),
            self.heap@.len() > 0,
        ensures
            is_next(self.pending@, self.rank@[0]),
            self.rank@[0] == next_index(self.pending@),
            self.heap@[0].query == self.pending@[self.rank@[0]],
    {
        let first = self.rank@[0];
        assert(self.place@[first] == 0);
        assert forall|j: int| 0 <= j < self.pending@.len() implies self.pending@[first].timer <= (
        #[trigger] self.pending@[j]).timer by {
            lemma_root_first(self.heap@, self.place@[j]);
        }
        assert forall|j: int| 0 <= j < first implies self.pending@[first].timer < (
        #[trigger] self.pending@[j]).timer by {
            lemma_root_first(self.heap@, self.place@[j]);
            assert(self.tickets@[j] < self.tickets@[first]);
        }
        lemma_next_unique(self.pending@, first);
    }
}

} // verus!
