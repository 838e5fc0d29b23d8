//! Second-chance (clock) eviction table: the resident frames sit in a
//! queue, each with a reference bit that is set on every repeat access and
//! clear on admission. The victim scan walks the queue from the front,
//! clearing set bits as it passes; the first entry already clear leaves the
//! queue. When every bit was set, one full pass clears them all and the
//! front entry leaves.

use std::collections::VecDeque;
use vstd::prelude::*;

verus! {

broadcast use vstd::std_specs::vecdeque::axiom_spec_len;

/// Bookkeeping for one resident frame: whether it was accessed since the
/// scan pointer last passed it.
#[derive(Clone, Copy, Debug, PartialEq, Eq, Structural)]
pub struct SecondChancePALTableEntry {
    pub frame: usize,
    pub accessed: bool,
}

/// The entry with its reference bit cleared.
pub open spec fn sc_cleared(e: SecondChancePALTableEntry) -> SecondChancePALTableEntry {
    SecondChancePALTableEntry { frame: e.frame, accessed: false }
}

/// Refreshing an already-resident frame: only its reference bit is set.
pub open spec fn sc_refresh(
    s: Seq<SecondChancePALTableEntry>,
    s2: Seq<SecondChancePALTableEntry>,
    frame: usize,
) -> bool {
    exists|j: int|
        0 <= j < s.len() && s[j].frame == frame && s2 == s.update(
            j,
            SecondChancePALTableEntry { frame, accessed: true },
        )
}

/// Victim selection: the first entry with a clear reference bit leaves the
/// queue, after the bits of everything in front of it were cleared; if all
/// bits were set, the whole queue is cleared and the front entry leaves.
pub open spec fn sc_victim_post(
    s: Seq<SecondChancePALTableEntry>,
    s2: Seq<SecondChancePALTableEntry>,
    victim: usize,
) -> bool {
    if exists|j: int| 0 <= j < s.len() && !(#[trigger] s[j]).accessed {
        exists|j: int|
            {
                &&& 0 <= j < s.len()
                &&& !s[j].accessed
                &&& (forall|i: int| 0 <= i < j ==> (#[trigger] s[i]).accessed)
                &&& victim == s[j].frame
                &&& s2.len() == s.len() - 1
                &&& (forall|i: int| 0 <= i < j ==> (#[trigger] s2[i]) == sc_cleared(s[i]))
                &&& (forall|i: int| j <= i < s2.len() ==> (#[trigger] s2[i]) == s[i + 1])
            }
    } else {
        &&& victim == s[0].frame
        &&& s2.len() == s.len() - 1
        &&& (forall|i: int| 0 <= i < s2.len() ==> (#[trigger] s2[i]) == sc_cleared(s[i + 1]))
    }
}

/// The whole effect of `insert`: refresh when resident, plain admission at
/// the back while below capacity, admission after eviction at capacity.
pub open spec fn sc_insert_post(
    t: SecondChancePALTable,
    t2: SecondChancePALTable,
    frame: usize,
    r: Option<usize>,
) -> bool {
    &&& t2.capacity == t.capacity
    &&& if t.tracks(frame) {
        r is None && sc_refresh(t.entries@, t2.entries@, frame)
    } else if t.entries@.len() < t.capacity {
        r is None && t2.entries@ == t.entries@.push(
            SecondChancePALTableEntry { frame, accessed: false },
        )
    } else {
        exists|v: usize, mid: Seq<SecondChancePALTableEntry>|
            {
                &&& r == Some(v)
                &&& sc_victim_post(t.entries@, mid, v)
                &&& t2.entries@ == mid.push(SecondChancePALTableEntry { frame, accessed: false })
            }
    }
}

/// The second-chance table: the resident queue with its reference bits,
/// bounded by the configured capacity.
#[derive(Clone, Debug)]
pub struct SecondChancePALTable {
    pub entries: VecDeque<SecondChancePALTableEntry>,
    pub capacity: usize,
}

impl SecondChancePALTable {
    /// The resident frames, in queue order.
    pub open spec fn frames(self) -> Seq<usize> {
        self.entries@.map_values(|e: SecondChancePALTableEntry| e.frame)
    }

    pub open spec fn tracks(self, frame: usize) -> bool {
        exists|i: int| 0 <= i < self.entries@.len() && (#[trigger] self.entries@[i]).frame == frame
    }

    /// The queue never grows past its capacity and tracks each frame at
    /// most once.
    pub open spec fn wf(self) -> bool {
        &&& self.capacity >= 1
        &&& self.entries@.len() <= self.capacity
        &&& forall|i: int, j: int|
            0 <= i < j < self.entries@.len() ==> (#[trigger] self.entries@[i]).frame != (
            #[trigger] self.entries@[j]).frame
    }

    pub fn new(capacity: usize) -> (r: Self)
        requires
            capacity >= 1,
        ensures
            r.wf(),
            r.capacity == capacity,
            r.entries@.len() == 0,
    {
        SecondChancePALTable { entries: VecDeque::new(), capacity }
    }

    fn position_of(&self, frame: usize) -> (r: Option<usize>)
        ensures
            match r {
                Some(i) => i < self.entries@.len() && self.entries@[i as int].frame == frame,
                None => !self.tracks(frame),
            },
    {
        let n = self.entries.len();
        let mut i: usize = 0;
        while i < n
            invariant
                i <= n,
                n == self.entries@.len(),
                forall|q: int| 0 <= q < i ==> (#[trigger] self.entries@[q]).frame != frame,
            decreases n - i,
        {
            if self.entries[i].frame == frame {
                return Some(i);
            }
            i = i + 1;
        }
        None
    }

    /// Replaces the entry at `i`, keeping everything else in place.
    fn replace_at(&mut self, i: usize, e: SecondChancePALTableEntry)
        requires
            i < old(self).entries@.len(),
        ensures
            final(self).capacity == old(self).capacity,
            final(self).entries@ == old(self).entries@.update(i as int, e),
    {
        self.entries.remove(i);
        self.entries.insert(i, e);
        proof {
            assert(final(self).entries@ =~= old(self).entries@.update(i as int, e));
        }
    }

    /// Sets the reference bit of the already-resident `frame`.
    pub fn update_access(&mut self, frame: usize)
        requires
            old(self).wf(),
            old(self).tracks(frame),
        ensures
            final(self).wf(),
            final(self).capacity == old(self).capacity,
            sc_refresh(old(self).entries@, final(self).entries@, frame),
            final(self).frames() == old(self).frames(),
    {
        match self.position_of(frame) {
            Some(i) => {
                self.replace_at(i, SecondChancePALTableEntry { frame, accessed: true });
                proof {
                    assert(final(self).frames() =~= old(self).frames());
                }
            },
            None => {
                proof {
                    assert(false);
                }
            },
        }
    }

    /// Scans the queue from the front, clearing set reference bits; removes
    /// and returns the first frame whose bit was already clear, or, when
    /// every bit was set, the front frame after the pass cleared them all.
    pub fn find_frame_to_deallocate(&mut self) -> (r: usize)
        requires
            old(self).wf(),
            old(self).entries@.len() >= 1,
        ensures
            final(self).wf(),
            final(self).capacity == old(self).capacity,
            sc_victim_post(old(self).entries@, final(self).entries@, r),
            old(self).tracks(r),
            final(self).entries@.len() == old(self).entries@.len() - 1,
    {
        let n = self.entries.len();
        let mut i: usize = 0;
        while i < n
            invariant
                i <= n,
                n == self.entries@.len(),
                n == old(self).entries@.len(),
                self.capacity == old(self).capacity,
                old(self).wf(),
                forall|q: int| 0 <= q < i ==> (#[trigger] old(self).entries@[q]).accessed,
                forall|q: int| 0 <= q < i ==> (#[trigger] self.entries@[q]) == sc_cleared(
                    old(self).entries@[q],
                ),
                forall|q: int| i <= q < n ==> (#[trigger] self.entries@[q]) == old(
                    self,
                ).entries@[q],
            decreases n - i,
        {
            let e = self.entries[i];
            if !e.accessed {
                let ghost before = self.entries@;
                let removed = self.entries.remove(i);
                proof {
                    let s = old(self).entries@;
                    let s2 = self.entries@;
                    let j = i as int;
                    assert(!s[j].accessed);
                    assert(exists|q: int| 0 <= q < s.len() && !(#[trigger] s[q]).accessed);
                    assert(s2 =~= before.remove(j));
                    assert(s2.len() == s.len() - 1);
                    assert(forall|q: int| 0 <= q < j ==> (#[trigger] s2[q]) == sc_cleared(s[q]));
                    assert(forall|q: int| j <= q < s2.len() ==> (#[trigger] s2[q]) == s[q + 1]);
                    assert(sc_victim_post(s, s2, s[j].frame));
                }
                return match removed {
                    Some(entry) => entry.frame,
                    None => 0,
                };
            }
            self.replace_at(i, SecondChancePALTableEntry { frame: e.frame, accessed: false });
            i = i + 1;
        }
        let ghost cleared_all = self.entries@;
        let removed = self.entries.remove(0);
        proof {
            let s = old(self).entries@;
            let s2 = self.entries@;
            assert(forall|j: int| 0 <= j < s.len() ==> (#[trigger] s[j]).accessed);
            assert(s2 =~= cleared_all.remove(0));
            assert(s2.len() == s.len() - 1);
            assert(forall|q: int| 0 <= q < s2.len() ==> (#[trigger] s2[q]) == sc_cleared(s[q + 1]));
            assert(sc_victim_post(s, s2, s[0].frame));
        }
        match removed {
            Some(entry) => entry.frame,
            None => 0,
        }
    }

    /// Admits or refreshes `frame`; at capacity an untracked frame first
    /// evicts the victim, whose index is returned.
    pub fn insert(&mut self, frame: usize) -> (r: Option<usize>)
        requires
            old(self).wf(),
        ensures
            final(self).wf(),
            final(self).tracks(frame),
            sc_insert_post(*old(self), *final(self), frame, r),
    {
        match self.position_of(frame) {
            Some(_) => {
                self.update_access(frame);
                proof {
                    let j = choose|j: int|
                        0 <= j < old(self).entries@.len() && old(self).entries@[j].frame == frame
                            && final(self).entries@ == old(self).entries@.update(
                            j,
                            SecondChancePALTableEntry { frame, accessed: true },
                        );
                    assert(final(self).entries@[j].frame == frame);
                }
                None
            },
            None => {
                let victim = if self.entries.len() >= self.capacity {
                    Some(self.find_frame_to_deallocate())
                } else {
                    None
                };
                self.entries.push_back(SecondChancePALTableEntry { frame, accessed: false });
                proof {
                    let last = final(self).entries@.len() - 1;
                    assert(final(self).entries@[last].frame == frame);
                }
                victim
            },
        }
    }
}

} // verus!
