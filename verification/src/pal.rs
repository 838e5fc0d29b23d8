//! The eviction policy (PAL): one uniform interface over the three
//! interchangeable algorithms — recency, frequency, and second-chance —
//! dispatched over a closed sum type. Whatever the algorithm, the policy
//! tracks a bounded resident set of frames and, on overflow, deterministically
//! selects a victim.

use vstd::prelude::*;

use crate::counter::{
    CounterPALTable, CounterPALTableEntry, counter_insert_post, counter_refresh,
    counter_victim_post,
};
use crate::lru::{LRUPALTable, LRUPALTableEntry, lru_insert_post, lru_refresh, lru_victim_post};
use crate::second_chance::{
    SecondChancePALTable, SecondChancePALTableEntry, sc_cleared, sc_insert_post, sc_refresh,
    sc_victim_post,
};

verus! {

/// Which eviction algorithm a policy runs.
#[derive(Clone, Copy, Debug, Hash, PartialEq, Eq, Structural)]
pub enum PALAlgorithm {
    LRU,
    Counter,
    SecondChance,
}

/// The algorithm-specific resident table behind a policy.
#[derive(Clone, Debug)]
pub enum PALTable {
    LRU(LRUPALTable),
    Counter(CounterPALTable),
    SecondChance(SecondChancePALTable),
}

/// The eviction policy: the resident table of the chosen algorithm.
#[derive(Clone, Debug)]
pub struct PAL {
    pub table: PALTable,
}

/// What `PAL::insert` did, algorithm by algorithm.
pub open spec fn pal_insert_post(p: PAL, p2: PAL, frame: usize, r: Option<usize>) -> bool {
    match (p.table, p2.table) {
        (PALTable::LRU(t), PALTable::LRU(t2)) => lru_insert_post(t, t2, frame, r),
        (PALTable::Counter(t), PALTable::Counter(t2)) => counter_insert_post(t, t2, frame, r),
        (PALTable::SecondChance(t), PALTable::SecondChance(t2)) => sc_insert_post(t, t2, frame, r),
        _ => false,
    }
}

/// What `PAL::update_access` did, algorithm by algorithm: only the
/// resident frame's metadata was refreshed.
pub open spec fn pal_update_post(p: PAL, p2: PAL, frame: usize) -> bool {
    match (p.table, p2.table) {
        (PALTable::LRU(t), PALTable::LRU(t2)) => t2.capacity == t.capacity && lru_refresh(
            t.entries@,
            t2.entries@,
            frame,
        ),
        (PALTable::Counter(t), PALTable::Counter(t2)) => t2.capacity == t.capacity
            && counter_refresh(t.entries@, t2.entries@, frame),
        (PALTable::SecondChance(t), PALTable::SecondChance(t2)) => t2.capacity == t.capacity
            && sc_refresh(t.entries@, t2.entries@, frame),
        _ => false,
    }
}

/// What `PAL::find_frame_to_deallocate` did, algorithm by algorithm.
pub open spec fn pal_find_post(p: PAL, p2: PAL, victim: usize) -> bool {
    match (p.table, p2.table) {
        (PALTable::LRU(t), PALTable::LRU(t2)) => t2.capacity == t.capacity && lru_victim_post(
            t.entries@,
            t2.entries@,
            victim,
        ),
        (PALTable::Counter(t), PALTable::Counter(t2)) => t2.capacity == t.capacity
            && counter_victim_post(t.entries@, t2.entries@, victim),
        (PALTable::SecondChance(t), PALTable::SecondChance(t2)) => t2.capacity == t.capacity
            && sc_victim_post(t.entries@, t2.entries@, victim),
        _ => false,
    }
}

/// What every algorithm's `insert` has in common, derived from the
/// algorithm-specific postcondition: a resident frame only refreshes the
/// resident set; an absent frame joins it, at the back, evicting exactly
/// one resident frame first when the set is at capacity.
pub proof fn lemma_pal_insert_props(p: PAL, p2: PAL, frame: usize, r: Option<usize>)
    requires
        p.wf(),
        pal_insert_post(p, p2, frame, r),
    ensures
        p.tracks(frame) ==> r is None && p2.tracked_frames() == p.tracked_frames(),
        !p.tracks(frame) && p.tracked_frames().len() < p.capacity() ==> r is None
            && p2.tracked_frames() == p.tracked_frames().push(frame),
        !p.tracks(frame) && p.tracked_frames().len() >= p.capacity() ==> r is Some && p.tracks(
            r->0,
        ) && p2.tracked_frames().len() == p.tracked_frames().len() && (forall|f: usize|
            #[trigger] p2.tracks(f) ==> p.tracks(f) || f == frame),
        p.tracks(frame) || p.tracked_frames().len() < p.capacity() ==> (forall|f: usize|
            #[trigger] p.tracks(f) ==> p2.tracks(f)),
{
    match (p.table, p2.table) {
        (PALTable::LRU(t), PALTable::LRU(t2)) => {
            let s = t.entries@;
            let s2 = t2.entries@;
            if t.tracks(frame) {
                assert(t2.frames() =~= t.frames());
                assert forall|f: usize| #[trigger] t.tracks(f) implies t2.tracks(f) by {
                    let q = choose|q: int| 0 <= q < s.len() && (#[trigger] s[q]).frame == f;
                    assert(s2[q].frame == f);
                }
            } else if s.len() < t.capacity {
                assert(t2.frames() =~= t.frames().push(frame));
                assert forall|f: usize| #[trigger] t.tracks(f) implies t2.tracks(f) by {
                    let q = choose|q: int| 0 <= q < s.len() && (#[trigger] s[q]).frame == f;
                    assert(s2[q].frame == f);
                }
            } else {
                let j = choose|j: int|
                    0 <= j < s.len() && r == Some(s[j].frame) && (exists|ts: i64|
                        ts >= 0 && s2 == s.remove(j).push(
                            LRUPALTableEntry { frame, last_access: ts },
                        ));
                assert(s[j].frame == r->0);
                assert forall|f: usize| #[trigger] t2.tracks(f) implies t.tracks(f) || f
                    == frame by {
                    let q = choose|q: int| 0 <= q < s2.len() && s2[q].frame == f;
                    if q < s2.len() - 1 {
                        if q < j {
                            assert(s[q].frame == f);
                        } else {
                            assert(s[q + 1].frame == f);
                        }
                    }
                }
            }
        },
        (PALTable::Counter(t), PALTable::Counter(t2)) => {
            let s = t.entries@;
            let s2 = t2.entries@;
            if t.tracks(frame) {
                assert(t2.frames() =~= t.frames());
                assert forall|f: usize| #[trigger] t.tracks(f) implies t2.tracks(f) by {
                    let q = choose|q: int| 0 <= q < s.len() && (#[trigger] s[q]).frame == f;
                    assert(s2[q].frame == f);
                }
            } else if s.len() < t.capacity {
                assert(t2.frames() =~= t.frames().push(frame));
                assert forall|f: usize| #[trigger] t.tracks(f) implies t2.tracks(f) by {
                    let q = choose|q: int| 0 <= q < s.len() && (#[trigger] s[q]).frame == f;
                    assert(s2[q].frame == f);
                }
            } else {
                let j = choose|j: int|
                    0 <= j < s.len() && r == Some(s[j].frame) && s2 == s.remove(j).push(
                        CounterPALTableEntry { frame, times_accessed: 0 },
                    );
                assert(s[j].frame == r->0);
                assert forall|f: usize| #[trigger] t2.tracks(f) implies t.tracks(f) || f
                    == frame by {
                    let q = choose|q: int| 0 <= q < s2.len() && s2[q].frame == f;
                    if q < s2.len() - 1 {
                        if q < j {
                            assert(s[q].frame == f);
                        } else {
                            assert(s[q + 1].frame == f);
                        }
                    }
                }
            }
        },
        (PALTable::SecondChance(t), PALTable::SecondChance(t2)) => {
            let s = t.entries@;
            let s2 = t2.entries@;
            if t.tracks(frame) {
                assert(t2.frames() =~= t.frames());
                assert forall|f: usize| #[trigger] t.tracks(f) implies t2.tracks(f) by {
                    let q = choose|q: int| 0 <= q < s.len() && (#[trigger] s[q]).frame == f;
                    assert(s2[q].frame == f);
                }
            } else if s.len() < t.capacity {
                assert(t2.frames() =~= t.frames().push(frame));
                assert forall|f: usize| #[trigger] t.tracks(f) implies t2.tracks(f) by {
                    let q = choose|q: int| 0 <= q < s.len() && (#[trigger] s[q]).frame == f;
                    assert(s2[q].frame == f);
                }
            } else {
                let (v, mid): (usize, Seq<SecondChancePALTableEntry>) = choose|
                    v: usize,
                    mid: Seq<SecondChancePALTableEntry>,
                |
                    r == Some(v) && sc_victim_post(s, mid, v) && s2 == mid.push(
                        SecondChancePALTableEntry { frame, accessed: false },
                    );
                if exists|j: int| 0 <= j < s.len() && !(#[trigger] s[j]).accessed {
                    let j = choose|j: int|
                        {
                            &&& 0 <= j < s.len()
                            &&& !s[j].accessed
                            &&& (forall|i: int| 0 <= i < j ==> (#[trigger] s[i]).accessed)
                            &&& v == s[j].frame
                            &&& mid.len() == s.len() - 1
                            &&& (forall|i: int| 0 <= i < j ==> (#[trigger] mid[i]) == sc_cleared(
                                s[i],
                            ))
                            &&& (forall|i: int| j <= i < mid.len() ==> (#[trigger] mid[i]) == s[i
                                + 1])
                        };
                    assert(s[j].frame == v);
                    assert forall|f: usize| #[trigger] t2.tracks(f) implies t.tracks(f) || f
                        == frame by {
                        let q = choose|q: int| 0 <= q < s2.len() && s2[q].frame == f;
                        if q < s2.len() - 1 {
                            if q < j {
                                assert(s[q].frame == f);
                            } else {
                                assert(s[q + 1].frame == f);
                            }
                        }
                    }
                } else {
                    assert(s[0].frame == v);
                    assert forall|f: usize| #[trigger] t2.tracks(f) implies t.tracks(f) || f
                        == frame by {
                        let q = choose|q: int| 0 <= q < s2.len() && s2[q].frame == f;
                        if q < s2.len() - 1 {
                            assert(s[q + 1].frame == f);
                        }
                    }
                }
            }
        },
        _ => {
            assert(false);
        },
    }
}

/// A frame is resident exactly when it occurs in the sequence of resident
/// frames.
pub proof fn lemma_tracks_iff_in_frames(p: PAL, f: usize)
    ensures
        p.tracks(f) <==> (exists|i: int|
            0 <= i < p.tracked_frames().len() && (#[trigger] p.tracked_frames()[i]) == f),
{
    match p.table {
        PALTable::LRU(t) => {
            if t.tracks(f) {
                let q = choose|q: int|
                    0 <= q < t.entries@.len() && (#[trigger] t.entries@[q]).frame == f;
                assert(p.tracked_frames() == t.frames());
                assert(0 <= q < p.tracked_frames().len() && p.tracked_frames()[q] == f);
            }
            if exists|i: int|
                0 <= i < p.tracked_frames().len() && (#[trigger] p.tracked_frames()[i]) == f {
                let i = choose|i: int|
                    0 <= i < p.tracked_frames().len() && (#[trigger] p.tracked_frames()[i]) == f;
                assert(t.entries@[i].frame == f);
            }
        },
        PALTable::Counter(t) => {
            if t.tracks(f) {
                let q = choose|q: int|
                    0 <= q < t.entries@.len() && (#[trigger] t.entries@[q]).frame == f;
                assert(p.tracked_frames() == t.frames());
                assert(0 <= q < p.tracked_frames().len() && p.tracked_frames()[q] == f);
            }
            if exists|i: int|
                0 <= i < p.tracked_frames().len() && (#[trigger] p.tracked_frames()[i]) == f {
                let i = choose|i: int|
                    0 <= i < p.tracked_frames().len() && (#[trigger] p.tracked_frames()[i]) == f;
                assert(t.entries@[i].frame == f);
            }
        },
        PALTable::SecondChance(t) => {
            if t.tracks(f) {
                let q = choose|q: int|
                    0 <= q < t.entries@.len() && (#[trigger] t.entries@[q]).frame == f;
                assert(p.tracked_frames() == t.frames());
                assert(0 <= q < p.tracked_frames().len() && p.tracked_frames()[q] == f);
            }
            if exists|i: int|
                0 <= i < p.tracked_frames().len() && (#[trigger] p.tracked_frames()[i]) == f {
                let i = choose|i: int|
                    0 <= i < p.tracked_frames().len() && (#[trigger] p.tracked_frames()[i]) == f;
                assert(t.entries@[i].frame == f);
            }
        },
    }
}

/// What every algorithm's victim selection has in common, derived from the
/// algorithm-specific postcondition: the victim leaves the resident set and
/// every other resident frame stays.
pub proof fn lemma_pal_find_props(p: PAL, mid: PAL, victim: usize)
    requires
        p.wf(),
        pal_find_post(p, mid, victim),
    ensures
        p.tracks(victim),
        !mid.tracks(victim),
        mid.tracked_frames().len() == p.tracked_frames().len() - 1,
        forall|f: usize| #[trigger] mid.tracks(f) ==> p.tracks(f),
        forall|f: usize| p.tracks(f) && f != victim ==> #[trigger] mid.tracks(f),
{
    match (p.table, mid.table) {
        (PALTable::LRU(t), PALTable::LRU(t2)) => {
            let s = t.entries@;
            let s2 = t2.entries@;
            let j = choose|j: int|
                {
                    &&& 0 <= j < s.len()
                    &&& victim == s[j].frame
                    &&& (forall|i: int| 0 <= i < s.len() ==> s[j].last_access <= (
                    #[trigger] s[i]).last_access)
                    &&& (forall|i: int| 0 <= i < j ==> (#[trigger] s[i]).last_access
                        > s[j].last_access)
                    &&& s2 == s.remove(j)
                };
            assert(0 <= j < s.len() && victim == s[j].frame && s2 == s.remove(j));
            assert(s2.len() == s.len() - 1);
            assert(t.frames().len() == s.len());
            assert(t2.frames().len() == s2.len());
            assert forall|f: usize| #[trigger] t2.tracks(f) implies t.tracks(f) && f
                != victim by {
                let q = choose|q: int| 0 <= q < s2.len() && (#[trigger] s2[q]).frame == f;
                if q < j {
                    assert(s[q].frame == f);
                } else {
                    assert(s[q + 1].frame == f);
                }
            }
            assert forall|f: usize| t.tracks(f) && f != victim implies #[trigger] t2.tracks(
                f,
            ) by {
                let q = choose|q: int| 0 <= q < s.len() && (#[trigger] s[q]).frame == f;
                if q < j {
                    assert(s2[q].frame == f);
                } else {
                    assert(s2[q - 1].frame == f);
                }
            }
        },
        (PALTable::Counter(t), PALTable::Counter(t2)) => {
            let s = t.entries@;
            let s2 = t2.entries@;
            let j = choose|j: int|
                {
                    &&& 0 <= j < s.len()
                    &&& victim == s[j].frame
                    &&& (forall|i: int| 0 <= i < s.len() ==> s[j].times_accessed <= (
                    #[trigger] s[i]).times_accessed)
                    &&& (forall|i: int| 0 <= i < j ==> (#[trigger] s[i]).times_accessed
                        > s[j].times_accessed)
                    &&& s2 == s.remove(j)
                };
            assert(0 <= j < s.len() && victim == s[j].frame && s2 == s.remove(j));
            assert(s2.len() == s.len() - 1);
            assert(t.frames().len() == s.len());
            assert(t2.frames().len() == s2.len());
            assert forall|f: usize| #[trigger] t2.tracks(f) implies t.tracks(f) && f
                != victim by {
                let q = choose|q: int| 0 <= q < s2.len() && (#[trigger] s2[q]).frame == f;
                if q < j {
                    assert(s[q].frame == f);
                } else {
                    assert(s[q + 1].frame == f);
                }
            }
            assert forall|f: usize| t.tracks(f) && f != victim implies #[trigger] t2.tracks(
                f,
            ) by {
                let q = choose|q: int| 0 <= q < s.len() && (#[trigger] s[q]).frame == f;
                if q < j {
                    assert(s2[q].frame == f);
                } else {
                    assert(s2[q - 1].frame == f);
                }
            }
        },
        (PALTable::SecondChance(t), PALTable::SecondChance(t2)) => {
            let s = t.entries@;
            let s2 = t2.entries@;
            if exists|j: int| 0 <= j < s.len() && !(#[trigger] s[j]).accessed {
                let j = choose|j: int|
                    {
                        &&& 0 <= j < s.len()
                        &&& !s[j].accessed
                        &&& (forall|i: int| 0 <= i < j ==> (#[trigger] s[i]).accessed)
                        &&& victim == s[j].frame
                        &&& s2.len() == s.len() - 1
                        &&& (forall|i: int| 0 <= i < j ==> (#[trigger] s2[i]) == sc_cleared(s[i]))
                        &&& (forall|i: int| j <= i < s2.len() ==> (#[trigger] s2[i]) == s[i + 1])
                    };
                assert(0 <= j < s.len() && victim == s[j].frame);
                assert(s2.len() == s.len() - 1);
                assert(t.frames().len() == s.len());
                assert(t2.frames().len() == s2.len());
                assert forall|f: usize| #[trigger] t2.tracks(f) implies t.tracks(f) && f
                    != victim by {
                    let q = choose|q: int| 0 <= q < s2.len() && s2[q].frame == f;
                    if q < j {
                        assert(s[q].frame == f);
                    } else {
                        assert(s[q + 1].frame == f);
                    }
                }
                assert forall|f: usize| t.tracks(f) && f != victim implies #[trigger] t2.tracks(
                    f,
                ) by {
                    let q = choose|q: int| 0 <= q < s.len() && s[q].frame == f;
                    if q < j {
                        assert(s2[q].frame == f);
                    } else {
                        assert(s2[q - 1].frame == f);
                    }
                }
            } else {
                assert(victim == s[0].frame);
                assert(s2.len() == s.len() - 1);
                assert(t.frames().len() == s.len());
                assert(t2.frames().len() == s2.len());
                assert forall|f: usize| #[trigger] t2.tracks(f) implies t.tracks(f) && f
                    != victim by {
                    let q = choose|q: int| 0 <= q < s2.len() && s2[q].frame == f;
                    assert(s[q + 1].frame == f);
                }
                assert forall|f: usize| t.tracks(f) && f != victim implies #[trigger] t2.tracks(
                    f,
                ) by {
                    let q = choose|q: int| 0 <= q < s.len() && s[q].frame == f;
                    assert(s2[q - 1].frame == f);
                }
            }
        },
        _ => {
            assert(false);
        },
    }
}

impl PAL {
    /// The algorithm this policy was created with.
    pub open spec fn algorithm(self) -> PALAlgorithm {
        match self.table {
            PALTable::LRU(_) => PALAlgorithm::LRU,
            PALTable::Counter(_) => PALAlgorithm::Counter,
            PALTable::SecondChance(_) => PALAlgorithm::SecondChance,
        }
    }

    /// The bound on the resident set.
    pub open spec fn capacity(self) -> usize {
        match self.table {
            PALTable::LRU(t) => t.capacity,
            PALTable::Counter(t) => t.capacity,
            PALTable::SecondChance(t) => t.capacity,
        }
    }

    /// The resident frames, in table order.
    pub open spec fn tracked_frames(self) -> Seq<usize> {
        match self.table {
            PALTable::LRU(t) => t.frames(),
            PALTable::Counter(t) => t.frames(),
            PALTable::SecondChance(t) => t.frames(),
        }
    }

    pub open spec fn tracks(self, frame: usize) -> bool {
        match self.table {
            PALTable::LRU(t) => t.tracks(frame),
            PALTable::Counter(t) => t.tracks(frame),
            PALTable::SecondChance(t) => t.tracks(frame),
        }
    }

    pub open spec fn wf(self) -> bool {
        match self.table {
            PALTable::LRU(t) => t.wf(),
            PALTable::Counter(t) => t.wf(),
            PALTable::SecondChance(t) => t.wf(),
        }
    }

    /// A fresh policy for `algorithm` tracking at most `frame_count`
    /// resident frames.
    pub fn new(algorithm: PALAlgorithm, frame_count: usize) -> (r: Self)
        requires
            frame_count >= 1,
        ensures
            r.wf(),
            r.algorithm() == algorithm,
            r.capacity() == frame_count,
            r.tracked_frames().len() == 0,
    {
        let r = match algorithm {
            PALAlgorithm::LRU => PAL { table: PALTable::LRU(LRUPALTable::new(frame_count)) },
            PALAlgorithm::Counter => PAL {
                table: PALTable::Counter(CounterPALTable::new(frame_count)),
            },
            PALAlgorithm::SecondChance => PAL {
                table: PALTable::SecondChance(SecondChancePALTable::new(frame_count)),
            },
        };
        proof {
            assert(r.tracked_frames().len() == 0);
        }
        r
    }

    /// Selects, removes and returns the victim frame of the algorithm.
    /// Must never be called while no frame is resident.
    pub fn find_frame_to_deallocate(&mut self) -> (r: usize)
        requires
            old(self).wf(),
            old(self).tracked_frames().len() >= 1,
        ensures
            final(self).wf(),
            final(self).algorithm() == old(self).algorithm(),
            final(self).capacity() == old(self).capacity(),
            pal_find_post(*old(self), *final(self), r),
            old(self).tracks(r),
            final(self).tracked_frames().len() == old(self).tracked_frames().len() - 1,
    {
        match &mut self.table {
            PALTable::LRU(t) => t.find_frame_to_deallocate(),
            PALTable::Counter(t) => t.find_frame_to_deallocate(),
            PALTable::SecondChance(t) => t.find_frame_to_deallocate(),
        }
    }

    /// Refreshes the metadata of the already-resident `frame` without
    /// changing residency.
    pub fn update_access(&mut self, frame: usize)
        requires
            old(self).wf(),
            old(self).tracks(frame),
        ensures
            final(self).wf(),
            final(self).algorithm() == old(self).algorithm(),
            final(self).capacity() == old(self).capacity(),
            final(self).tracked_frames() == old(self).tracked_frames(),
            pal_update_post(*old(self), *final(self), frame),
    {
        match &mut self.table {
            PALTable::LRU(t) => t.update_access(frame),
            PALTable::Counter(t) => t.update_access(frame),
            PALTable::SecondChance(t) => t.update_access(frame),
        }
    }

    /// Admits or refreshes `frame`: a resident frame is only refreshed; an
    /// absent frame is admitted, evicting the algorithm's victim first when
    /// the resident set is at capacity. Afterwards `frame` is resident and
    /// the resident set is still within capacity.
    pub fn insert(&mut self, frame: usize) -> (r: Option<usize>)
        requires
            old(self).wf(),
        ensures
            final(self).wf(),
            final(self).algorithm() == old(self).algorithm(),
            final(self).capacity() == old(self).capacity(),
            final(self).tracks(frame),
            final(self).tracked_frames().len() <= final(self).capacity(),
            pal_insert_post(*old(self), *final(self), frame, r),
    {
        match &mut self.table {
            PALTable::LRU(t) => t.insert(frame),
            PALTable::Counter(t) => t.insert(frame),
            PALTable::SecondChance(t) => t.insert(frame),
        }
    }
}

} // verus!
