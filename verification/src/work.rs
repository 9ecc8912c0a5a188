//! The compressions that run in the background.
use vstd::prelude::*;

verus! {

/// Identifies a piece of work.
#[derive(Clone, Copy, Debug, PartialEq, Eq, Hash, Structural)]
pub struct WorkId(pub u64);

/// The running compressions, each with the handle by which its end can be awaited.
pub struct Work<H> {
    next: u64,
    compression: Vec<(WorkId, H)>,
}

/// A piece of work is forgotten, and no other.
pub open spec fn forgets<H>(before: Seq<(WorkId, H)>, id: WorkId, after: Seq<(WorkId, H)>) -> bool {
    &&& (forall|i: int| 0 <= i < before.len() ==> (#[trigger] before[i]).0 != id) ==> after
        == before
    &&& forall|i: int|
        0 <= i < before.len() && (#[trigger] before[i]).0 == id ==> after == before.remove(i)
}

impl<H> View for Work<H> {
    type V = Seq<(WorkId, H)>;

    closed spec fn view(&self) -> Seq<(WorkId, H)> {
        self.compression@
    }
}

impl<H> Work<H> {
    /// The number of the next piece of work.
    pub closed spec fn next(&self) -> u64 {
        self.next
    }

    /// No two pieces of work share an id, and the next has one of its own.
    pub open spec fn is_valid(&self) -> bool {
        &&& forall|i: int| 0 <= i < self@.len() ==> (#[trigger] self@[i]).0.0 < self.next()
        &&& forall|i: int, j: int|
            0 <= i < j < self@.len() ==> (#[trigger] self@[i]).0 != (#[trigger] self@[j]).0
    }

    /// Nothing is running.
    pub fn new() -> (res: Work<H>)
        ensures
            res.is_valid(),
            res@ == Seq::<(WorkId, H)>::empty(),
            res.next() == 0,
    {
        Work { next: 0, compression: Vec::new() }
    }

    /// The id that the next compression will have, so that the work can be told its id before it
    /// starts.
    pub fn next_id(&self) -> (res: WorkId)
        ensures
            res == WorkId(self.next()),
    {
        WorkId(self.next)
    }

    /// How many compressions are running.
    pub fn len(&self) -> (res: usize)
        ensures
            res == self@.len(),
    {
        self.compression.len()
    }

    /// Records a compression that has been started.
    pub fn enqueue_compression(&mut self, handle: H) -> (id: WorkId)
        requires
            old(self).is_valid(),
            old(self).next() < u64::MAX,
        ensures
            final(self).is_valid(),
            id == WorkId(old(self).next()),
            final(self)@ == old(self)@.push((id, handle)),
            final(self).next() == old(self).next() + 1,
    {
        let id = WorkId(self.next);
        let ghost before = self@;
        self.compression.push((id, handle));
        self.next = self.next + 1;
        proof {
            assert forall|i: int| 0 <= i < self@.len() implies (#[trigger] self@[i]).0.0
                < self.next() by {
                if i < before.len() {
                    assert(self@[i] == before[i]);
                }
            }
            assert forall|i: int, j: int| 0 <= i < j < self@.len() implies (#[trigger] self@[i]).0
                != (#[trigger] self@[j]).0 by {
                assert(self@[i] == before[i]);
                if j < before.len() {
                    assert(self@[j] == before[j]);
                }
            }
        }
        id
    }

    /// Forgets a compression that has finished; an id that is not known is passed over.
    pub fn compression_finished(&mut self, work_id: WorkId)
        requires
            old(self).is_valid(),
        ensures
            final(self).is_valid(),
            final(self).next() == old(self).next(),
            forgets(old(self)@, work_id, final(self)@),
    {
        let mut i: usize = 0;
        while i < self.compression.len()
            invariant
                *self == *old(self),
                old(self).is_valid(),
                i <= self@.len(),
                forall|j: int| 0 <= j < i ==> (#[trigger] self@[j]).0 != work_id,
            decreases self@.len() - i,
        {
            if self.compression[i].0 == work_id {
                self.compression.remove(i);
                proof {
                    let before = old(self)@;
                    assert(self@ == before.remove(i as int));
                    assert forall|j: int|
                        0 <= j < before.len() && (#[trigger] before[j]).0 == work_id implies self@
                        == before.remove(j) by {
                        assert(before[i as int].0 == work_id);
                        assert(j == i);
                    }
                    assert forall|j: int| 0 <= j < self@.len() implies (#[trigger] self@[j]).0.0
                        < self.next() by {
                        assert(self@[j] == before[if j < i {
                            j
                        } else {
                            j + 1
                        }]);
                    }
                    assert forall|j: int, k: int| 0 <= j < k < self@.len() implies (
                    #[trigger] self@[j]).0 != (#[trigger] self@[k]).0 by {
                        assert(self@[j] == before[if j < i {
                            j
                        } else {
                            j + 1
                        }]);
                        assert(self@[k] == before[if k < i {
                            k
                        } else {
                            k + 1
                        }]);
                    }
                }
                return;
            }
            i = i + 1;
        }
    }

    /// Hands over the handles of all compressions and forgets them.
    pub fn drain_handles(&mut self) -> (handles: Vec<H>)
        requires
            old(self).is_valid(),
        ensures
            final(self).is_valid(),
            final(self)@ == Seq::<(WorkId, H)>::empty(),
            final(self).next() == old(self).next(),
            handles@ == old(self)@.map_values(|entry: (WorkId, H)| entry.1),
    {
        let mut handles: Vec<H> = Vec::new();
        let ghost all = self@;
        while self.compression.len() > 0
            invariant
                self@ == all.skip(handles@.len() as int),
                handles@.len() <= all.len(),
                handles@ == all.take(handles@.len() as int).map_values(
                    |entry: (WorkId, H)| entry.1,
                ),
                self.next() == old(self).next(),
            decreases self@.len(),
        {
            let ghost taken = handles@.len() as int;
            let (_, handle) = self.compression.remove(0);
            handles.push(handle);
            proof {
                assert(self@ =~= all.skip(taken + 1));
                assert(handles@ =~= all.take(taken + 1).map_values(|entry: (WorkId, H)| entry.1));
            }
        }
        assert(all.take(handles@.len() as int) =~= all);
        handles
    }
}

} // verus!
