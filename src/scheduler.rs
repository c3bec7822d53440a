use vstd::prelude::*;
use vstd::multiset::Multiset;
use crate::event::{sorted_by_time, TaskEvent};

verus! {

broadcast use vstd::seq_lib::group_to_multiset_ensures;

/// Position `i` holds an event with the least timestamp of `s`.
pub open spec fn is_earliest(s: Seq<TaskEvent>, i: int) -> bool {
    &&& 0 <= i < s.len()
    &&& forall|j: int| 0 <= j < s.len() ==> s[i].timestamp <= #[trigger] s[j].timestamp
}

/// Every event of `a` is due no later than every event of `b`.
pub open spec fn all_before(a: Seq<TaskEvent>, b: Seq<TaskEvent>) -> bool {
    forall|i: int, j: int|
        0 <= i < a.len() && 0 <= j < b.len() ==> #[trigger] a[i].timestamp <= #[trigger] b[j].timestamp
}

/// Pending finish events, taken out earliest due first. Ties among equal
/// timestamps are broken arbitrarily.
pub struct CompletionScheduler {
    pending: Vec<TaskEvent>,
}

impl View for CompletionScheduler {
    type V = Seq<TaskEvent>;

    closed spec fn view(&self) -> Seq<TaskEvent> {
        self.pending@
    }
}

impl CompletionScheduler {
    pub fn new() -> (r: CompletionScheduler)
        ensures
            r@ == Seq::<TaskEvent>::empty(),
    {
        CompletionScheduler { pending: Vec::new() }
    }

    /// Number of pending completions.
    pub fn len(&self) -> (r: usize)
        ensures
            r == self@.len(),
    {
        self.pending.len()
    }

    pub fn is_empty(&self) -> (r: bool)
        ensures
            r == (self@.len() == 0),
    {
        self.pending.len() == 0
    }

    /// Adds a pending completion, due at its own timestamp.
    pub fn schedule(&mut self, event: TaskEvent)
        ensures
            final(self)@ == old(self)@.push(event),
    {
        self.pending.push(event);
    }

    /// The position of an earliest pending completion, if any.
    fn earliest(&self) -> (r: Option<usize>)
        ensures
            r is None <==> self@.len() == 0,
            r matches Some(i) ==> is_earliest(self@, i as int),
    {
        if self.pending.len() == 0 {
            return None;
        }
        let mut best: usize = 0;
        let mut k: usize = 1;
        while k < self.pending.len()
            invariant
                self@ == self.pending@,
                1 <= k <= self.pending.len(),
                best < k,
                forall|j: int| 0 <= j < k ==> self.pending@[best as int].timestamp <= #[trigger] self.pending@[j].timestamp,
            decreases self.pending.len() - k,
        {
            if self.pending[k].timestamp < self.pending[best].timestamp {
                best = k;
            }
            k = k + 1;
        }
        Some(best)
    }

    /// Takes out an earliest pending completion; `None` when there is none.
    pub fn pop_min(&mut self) -> (r: Option<TaskEvent>)
        ensures
            r is None <==> old(self)@.len() == 0,
            r is None ==> final(self)@ == old(self)@,
            r matches Some(e) ==> exists|i: int|
                is_earliest(old(self)@, i) && e == old(self)@[i] && final(self)@ == old(self)@.remove(i),
    {
        match self.earliest() {
            None => None,
            Some(i) => {
                let e = self.pending.remove(i);
                assert(is_earliest(old(self)@, i as int));
                Some(e)
            },
        }
    }

    /// Takes out an earliest pending completion if it is due at or before `now`;
    /// otherwise leaves the scheduler as it is and returns `None`.
    pub fn pop_due(&mut self, now: u64) -> (r: Option<TaskEvent>)
        ensures
            r is None <==> forall|j: int| 0 <= j < old(self)@.len() ==> #[trigger] old(self)@[j].timestamp > now,
            r is None ==> final(self)@ == old(self)@,
            r matches Some(e) ==> e.timestamp <= now && exists|i: int|
                is_earliest(old(self)@, i) && e == old(self)@[i] && final(self)@ == old(self)@.remove(i),
    {
        match self.earliest() {
            None => None,
            Some(i) => {
                if self.pending[i].timestamp <= now {
                    let e = self.pending.remove(i);
                    assert(is_earliest(old(self)@, i as int));
                    Some(e)
                } else {
                    assert forall|j: int| 0 <= j < old(self)@.len() implies #[trigger] old(self)@[j].timestamp > now by {
                        assert(is_earliest(old(self)@, i as int));
                    }
                    None
                }
            },
        }
    }

    /// Takes out, earliest first, every pending completion due at or before
    /// `now`, and leaves those due later.
    pub fn drain_due(&mut self, now: u64) -> (r: Vec<TaskEvent>)
        ensures
            sorted_by_time(r@),
            forall|k: int| 0 <= k < r@.len() ==> #[trigger] r@[k].timestamp <= now,
            forall|j: int| 0 <= j < final(self)@.len() ==> #[trigger] final(self)@[j].timestamp > now,
            all_before(r@, final(self)@),
            r@.to_multiset().add(final(self)@.to_multiset()) == old(self)@.to_multiset(),
    {
        let mut r: Vec<TaskEvent> = Vec::new();
        loop
            invariant
                sorted_by_time(r@),
                forall|k: int| 0 <= k < r@.len() ==> #[trigger] r@[k].timestamp <= now,
                all_before(r@, self@),
                r@.to_multiset().add(self@.to_multiset()) == old(self)@.to_multiset(),
            ensures
                sorted_by_time(r@),
                forall|k: int| 0 <= k < r@.len() ==> #[trigger] r@[k].timestamp <= now,
                forall|j: int| 0 <= j < self@.len() ==> #[trigger] self@[j].timestamp > now,
                all_before(r@, self@),
                r@.to_multiset().add(self@.to_multiset()) == old(self)@.to_multiset(),
            decreases self@.len(),
        {
            let ghost before = self@;
            let ghost r0 = r@;
            match self.pop_due(now) {
                None => break,
                Some(e) => {
                    let ghost i = choose|i: int|
                        is_earliest(before, i) && e == before[i] && self@ == before.remove(i);
                    assert(forall|k: int| 0 <= k < r0.len() ==> #[trigger] r0[k].timestamp <= before[i].timestamp);
                    r.push(e);
                    assert(r0.push(e).to_multiset() == r0.to_multiset().insert(e));
                    assert(before.remove(i).to_multiset() == before.to_multiset().remove(e));
                    assert(r@.to_multiset().add(self@.to_multiset()) =~= old(self)@.to_multiset());
                },
            }
        }
        r
    }

    /// Takes out every pending completion, earliest first.
    pub fn drain_all(&mut self) -> (r: Vec<TaskEvent>)
        ensures
            sorted_by_time(r@),
            r@.len() == old(self)@.len(),
            r@.to_multiset() == old(self)@.to_multiset(),
            final(self)@.len() == 0,
    {
        let mut r: Vec<TaskEvent> = Vec::new();
        loop
            invariant
                sorted_by_time(r@),
                all_before(r@, self@),
                r@.to_multiset().add(self@.to_multiset()) == old(self)@.to_multiset(),
            ensures
                sorted_by_time(r@),
                self@.len() == 0,
                r@.to_multiset().add(self@.to_multiset()) == old(self)@.to_multiset(),
            decreases self@.len(),
        {
            let ghost before = self@;
            let ghost r0 = r@;
            match self.pop_min() {
                None => break,
                Some(e) => {
                    let ghost i = choose|i: int|
                        is_earliest(before, i) && e == before[i] && self@ == before.remove(i);
                    r.push(e);
                    assert(r0.push(e).to_multiset() == r0.to_multiset().insert(e));
                    assert(before.remove(i).to_multiset() == before.to_multiset().remove(e));
                    assert(r@.to_multiset().add(self@.to_multiset()) =~= old(self)@.to_multiset());
                },
            }
        }
        assert(self@.to_multiset() =~= Multiset::empty());
        assert(r@.to_multiset() =~= old(self)@.to_multiset());
        assert(r@.len() == r@.to_multiset().len());
        assert(old(self)@.len() == old(self)@.to_multiset().len());
        r
    }
}

} // verus!
