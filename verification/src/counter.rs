//! Frequency eviction table: per resident frame an access counter, starting
//! at zero on admission and bumped on every repeat access; the victim is
//! the frame with the smallest counter, first found winning ties. The
//! counter saturates at its maximum rather than wrapping.

use vstd::prelude::*;

verus! {

/// Bookkeeping for one resident frame: how often it was accessed since
/// admission (admission itself counts as no access).
#[derive(Clone, Copy, Debug, PartialEq, Eq, Structural)]
pub struct CounterPALTableEntry {
    pub frame: usize,
    pub times_accessed: usize,
}

/// A bumped access counter: one more access, saturating at the maximum.
pub open spec fn bumped(c: usize) -> usize {
    if c == usize::MAX {
        c
    } else {
        (c + 1) as usize
    }
}

/// Refreshing an already-resident frame: only its counter is bumped.
pub open spec fn counter_refresh(
    s: Seq<CounterPALTableEntry>,
    s2: Seq<CounterPALTableEntry>,
    frame: usize,
) -> bool {
    exists|j: int|
        0 <= j < s.len() && s[j].frame == frame && s2 == s.update(
            j,
            CounterPALTableEntry { frame, times_accessed: bumped(s[j].times_accessed) },
        )
}

/// Victim selection: the first entry whose counter is minimal over the
/// whole table leaves it; everything else is untouched.
pub open spec fn counter_victim_post(
    s: Seq<CounterPALTableEntry>,
    s2: Seq<CounterPALTableEntry>,
    victim: usize,
) -> bool {
    exists|j: int|
        {
            &&& 0 <= j < s.len()
            &&& victim == s[j].frame
            &&& (forall|i: int| 0 <= i < s.len() ==> s[j].times_accessed <= (#[trigger] s[i]).times_accessed)
            &&& (forall|i: int| 0 <= i < j ==> (#[trigger] s[i]).times_accessed > s[j].times_accessed)
            &&& s2 == s.remove(j)
        }
}

/// The whole effect of `insert`: refresh when resident, plain admission
/// while below capacity, admission after eviction at capacity.
pub open spec fn counter_insert_post(
    t: CounterPALTable,
    t2: CounterPALTable,
    frame: usize,
    r: Option<usize>,
) -> bool {
    &&& t2.capacity == t.capacity
    &&& if t.tracks(frame) {
        r is None && counter_refresh(t.entries@, t2.entries@, frame)
    } else if t.entries@.len() < t.capacity {
        r is None && t2.entries@ == t.entries@.push(
            CounterPALTableEntry { frame, times_accessed: 0 },
        )
    } else {
        exists|j: int|
            {
                &&& 0 <= j < t.entries@.len()
                &&& r == Some(t.entries@[j].frame)
                &&& (forall|i: int| 0 <= i < t.entries@.len() ==> t.entries@[j].times_accessed <= (
                #[trigger] t.entries@[i]).times_accessed)
                &&& (forall|i: int| 0 <= i < j ==> (#[trigger] t.entries@[i]).times_accessed
                    > t.entries@[j].times_accessed)
                &&& t2.entries@ == t.entries@.remove(j).push(
                    CounterPALTableEntry { frame, times_accessed: 0 },
                )
            }
    }
}

/// The frequency table: the resident set with its counters, bounded by the
/// configured capacity.
#[derive(Clone, Debug)]
pub struct CounterPALTable {
    pub entries: Vec<CounterPALTableEntry>,
    pub capacity: usize,
}

impl CounterPALTable {
    /// The resident frames, in table order.
    pub open spec fn frames(self) -> Seq<usize> {
        self.entries@.map_values(|e: CounterPALTableEntry| e.frame)
    }

    pub open spec fn tracks(self, frame: usize) -> bool {
        exists|i: int| 0 <= i < self.entries@.len() && (#[trigger] self.entries@[i]).frame == frame
    }

    /// The table never grows past its capacity and tracks each frame at
    /// most once.
    pub open spec fn wf(self) -> bool {
        &&& self.capacity >= 1
        &&& self.entries@.len() <= self.capacity
        &&& forall|i: int, j: int|
            0 <= i < j < self.entries@.len() ==> (#[trigger] self.entries@[i]).frame != (
            #[trigger] self.entries@[j]).frame
    }

    pub fn new(capacity: usize) -> (r: Self)
        requires
            capacity >= 1,
        ensures
            r.wf(),
            r.capacity == capacity,
            r.entries@.len() == 0,
    {
        CounterPALTable { entries: Vec::new(), capacity }
    }

    fn position_of(&self, frame: usize) -> (r: Option<usize>)
        ensures
            match r {
                Some(i) => i < self.entries@.len() && self.entries@[i as int].frame == frame,
                None => !self.tracks(frame),
            },
    {
        let n = self.entries.len();
        let mut i: usize = 0;
        while i < n
            invariant
                i <= n,
                n == self.entries@.len(),
                forall|q: int| 0 <= q < i ==> (#[trigger] self.entries@[q]).frame != frame,
            decreases n - i,
        {
            if self.entries[i].frame == frame {
                return Some(i);
            }
            i = i + 1;
        }
        None
    }

    /// Bumps the counter of the already-resident `frame`.
    pub fn update_access(&mut self, frame: usize)
        requires
            old(self).wf(),
            old(self).tracks(frame),
        ensures
            final(self).wf(),
            final(self).capacity == old(self).capacity,
            counter_refresh(old(self).entries@, final(self).entries@, frame),
            final(self).frames() == old(self).frames(),
    {
        match self.position_of(frame) {
            Some(i) => {
                let e = self.entries[i];
                let c = if e.times_accessed < usize::MAX {
                    e.times_accessed + 1
                } else {
                    e.times_accessed
                };
                self.entries.set(i, CounterPALTableEntry { frame, times_accessed: c });
                proof {
                    assert(final(self).frames() =~= old(self).frames());
                }
            },
            None => {
                proof {
                    assert(false);
                }
            },
        }
    }

    /// Removes and returns the first frame whose counter is minimal.
    pub fn find_frame_to_deallocate(&mut self) -> (r: usize)
        requires
            old(self).wf(),
            old(self).entries@.len() >= 1,
        ensures
            final(self).wf(),
            final(self).capacity == old(self).capacity,
            counter_victim_post(old(self).entries@, final(self).entries@, r),
            old(self).tracks(r),
            final(self).entries@.len() == old(self).entries@.len() - 1,
    {
        let n = self.entries.len();
        let mut best: usize = 0;
        let mut i: usize = 1;
        while i < n
            invariant
                best < i <= n,
                n == self.entries@.len(),
                *self == *old(self),
                forall|q: int| 0 <= q < i ==> self.entries@[best as int].times_accessed <= (
                #[trigger] self.entries@[q]).times_accessed,
                forall|q: int| 0 <= q < best ==> (#[trigger] self.entries@[q]).times_accessed
                    > self.entries@[best as int].times_accessed,
            decreases n - i,
        {
            if self.entries[i].times_accessed < self.entries[best].times_accessed {
                best = i;
            }
            i = i + 1;
        }
        let victim = self.entries[best].frame;
        self.entries.remove(best);
        victim
    }

    /// Admits or refreshes `frame`; at capacity an untracked frame first
    /// evicts the victim, whose index is returned.
    pub fn insert(&mut self, frame: usize) -> (r: Option<usize>)
        requires
            old(self).wf(),
        ensures
            final(self).wf(),
            final(self).tracks(frame),
            counter_insert_post(*old(self), *final(self), frame, r),
    {
        match self.position_of(frame) {
            Some(_) => {
                self.update_access(frame);
                proof {
                    let j = choose|j: int|
                        0 <= j < old(self).entries@.len() && old(self).entries@[j].frame == frame
                            && final(self).entries@ == old(self).entries@.update(
                            j,
                            CounterPALTableEntry {
                                frame,
                                times_accessed: bumped(old(self).entries@[j].times_accessed),
                            },
                        );
                    assert(final(self).entries@[j].frame == frame);
                }
                None
            },
            None => {
                let victim = if self.entries.len() >= self.capacity {
                    Some(self.find_frame_to_deallocate())
                } else {
                    None
                };
                self.entries.push(CounterPALTableEntry { frame, times_accessed: 0 });
                proof {
                    let last = final(self).entries@.len() - 1;
                    assert(final(self).entries@[last].frame == frame);
                }
                victim
            },
        }
    }
}

} // verus!
