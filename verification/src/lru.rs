//! Recency eviction table: per resident frame the wall-clock timestamp of
//! its last access, in milliseconds since the Unix epoch; the victim is
//! the frame with the smallest timestamp, first found winning ties.

use vstd::prelude::*;

verus! {

/// Relies on `chrono::Utc::now` for the current instant and on
/// `chrono::DateTime::timestamp_millis` to read it as milliseconds since
/// the Unix epoch. Nothing can be promised of a clock reading beyond its
/// sign: `Utc::now` aborts if the system clock is before the epoch, so the
/// instant it returns is at or after it. Two calls may return anything,
/// in any order.
#[verifier::external_body]
fn now_millis() -> (t: i64)
    ensures
        t >= 0,
{
    chrono::Utc::now().timestamp_millis()
}

/// Bookkeeping for one resident frame: when it was last accessed.
#[derive(Clone, Copy, Debug, PartialEq, Eq, Structural)]
pub struct LRUPALTableEntry {
    pub frame: usize,
    pub last_access: i64,
}

/// Refreshing an already-resident frame: only its timestamp changes, to
/// whatever the clock read at the access.
pub open spec fn lru_refresh(
    s: Seq<LRUPALTableEntry>,
    s2: Seq<LRUPALTableEntry>,
    frame: usize,
) -> bool {
    exists|j: int, t: i64|
        0 <= j < s.len() && s[j].frame == frame && t >= 0 && s2 == s.update(
            j,
            LRUPALTableEntry { frame, last_access: t },
        )
}

/// Victim selection: the first entry whose timestamp is minimal over the
/// whole table leaves it; everything else is untouched.
pub open spec fn lru_victim_post(
    s: Seq<LRUPALTableEntry>,
    s2: Seq<LRUPALTableEntry>,
    victim: usize,
) -> bool {
    exists|j: int|
        {
            &&& 0 <= j < s.len()
            &&& victim == s[j].frame
            &&& (forall|i: int| 0 <= i < s.len() ==> s[j].last_access <= (#[trigger] s[i]).last_access)
            &&& (forall|i: int| 0 <= i < j ==> (#[trigger] s[i]).last_access > s[j].last_access)
            &&& s2 == s.remove(j)
        }
}

/// The whole effect of `insert`: refresh when resident, plain admission
/// while below capacity, admission after eviction at capacity.
pub open spec fn lru_insert_post(
    t: LRUPALTable,
    t2: LRUPALTable,
    frame: usize,
    r: Option<usize>,
) -> bool {
    &&& t2.capacity == t.capacity
    &&& if t.tracks(frame) {
        r is None && lru_refresh(t.entries@, t2.entries@, frame)
    } else if t.entries@.len() < t.capacity {
        r is None && (exists|ts: i64|
            ts >= 0 && t2.entries@ == t.entries@.push(LRUPALTableEntry { frame, last_access: ts }))
    } else {
        exists|j: int, ts: i64|
            {
                &&& 0 <= j < t.entries@.len()
                &&& r == Some(t.entries@[j].frame)
                &&& (forall|i: int| 0 <= i < t.entries@.len() ==> t.entries@[j].last_access <= (
                #[trigger] t.entries@[i]).last_access)
                &&& (forall|i: int| 0 <= i < j ==> (#[trigger] t.entries@[i]).last_access
                    > t.entries@[j].last_access)
                &&& ts >= 0
                &&& t2.entries@ == t.entries@.remove(j).push(
                    LRUPALTableEntry { frame, last_access: ts },
                )
            }
    }
}

/// Inserting a frame that is already resident never triggers eviction:
/// the call returns `None`, the resident frames are exactly the ones from
/// before, and only that frame's recency timestamp changes.
pub proof fn lemma_reinsert_resident_no_eviction(
    t: LRUPALTable,
    t2: LRUPALTable,
    frame: usize,
    r: Option<usize>,
)
    requires
        t.wf(),
        t.tracks(frame),
        lru_insert_post(t, t2, frame, r),
    ensures
        r is None,
        t2.frames() == t.frames(),
        lru_refresh(t.entries@, t2.entries@, frame),
{
    let s = t.entries@;
    let s2 = t2.entries@;
    let (j, ts): (int, i64) = choose|j: int, ts: i64|
        0 <= j < s.len() && s[j].frame == frame && ts >= 0 && s2 == s.update(
            j,
            LRUPALTableEntry { frame, last_access: ts },
        );
    assert(s2 == s.update(j, LRUPALTableEntry { frame, last_access: ts }));
    assert(t2.frames() =~= t.frames());
}

/// The recency table: the resident set with its timestamps, bounded by the
/// configured capacity.
#[derive(Clone, Debug)]
pub struct LRUPALTable {
    pub entries: Vec<LRUPALTableEntry>,
    pub capacity: usize,
}

impl LRUPALTable {
    /// The resident frames, in table order.
    pub open spec fn frames(self) -> Seq<usize> {
        self.entries@.map_values(|e: LRUPALTableEntry| e.frame)
    }

    pub open spec fn tracks(self, frame: usize) -> bool {
        exists|i: int| 0 <= i < self.entries@.len() && (#[trigger] self.entries@[i]).frame == frame
    }

    /// The table never grows past its capacity and tracks each frame at
    /// most once.
    pub open spec fn wf(self) -> bool {
        &&& self.capacity >= 1
        &&& self.entries@.len() <= self.capacity
        &&& forall|i: int, j: int|
            0 <= i < j < self.entries@.len() ==> (#[trigger] self.entries@[i]).frame != (
            #[trigger] self.entries@[j]).frame
    }

    pub fn new(capacity: usize) -> (r: Self)
        requires
            capacity >= 1,
        ensures
            r.wf(),
            r.capacity == capacity,
            r.entries@.len() == 0,
    {
        LRUPALTable { entries: Vec::new(), capacity }
    }

    fn position_of(&self, frame: usize) -> (r: Option<usize>)
        ensures
            match r {
                Some(i) => i < self.entries@.len() && self.entries@[i as int].frame == frame,
                None => !self.tracks(frame),
            },
    {
        let n = self.entries.len();
        let mut i: usize = 0;
        while i < n
            invariant
                i <= n,
                n == self.entries@.len(),
                forall|q: int| 0 <= q < i ==> (#[trigger] self.entries@[q]).frame != frame,
            decreases n - i,
        {
            if self.entries[i].frame == frame {
                return Some(i);
            }
            i = i + 1;
        }
        None
    }

    /// Stamps the already-resident `frame` with the current time.
    pub fn update_access(&mut self, frame: usize)
        requires
            old(self).wf(),
            old(self).tracks(frame),
        ensures
            final(self).wf(),
            final(self).capacity == old(self).capacity,
            lru_refresh(old(self).entries@, final(self).entries@, frame),
            final(self).frames() == old(self).frames(),
    {
        match self.position_of(frame) {
            Some(i) => {
                let now = now_millis();
                self.entries.set(i, LRUPALTableEntry { frame, last_access: now });
                proof {
                    assert(final(self).frames() =~= old(self).frames());
                }
            },
            None => {
                proof {
                    assert(false);
                }
            },
        }
    }

    /// Removes and returns the first frame whose timestamp is minimal.
    pub fn find_frame_to_deallocate(&mut self) -> (r: usize)
        requires
            old(self).wf(),
            old(self).entries@.len() >= 1,
        ensures
            final(self).wf(),
            final(self).capacity == old(self).capacity,
            lru_victim_post(old(self).entries@, final(self).entries@, r),
            old(self).tracks(r),
            final(self).entries@.len() == old(self).entries@.len() - 1,
    {
        let n = self.entries.len();
        let mut best: usize = 0;
        let mut i: usize = 1;
        while i < n
            invariant
                best < i <= n,
                n == self.entries@.len(),
                *self == *old(self),
                forall|q: int| 0 <= q < i ==> self.entries@[best as int].last_access <= (
                #[trigger] self.entries@[q]).last_access,
                forall|q: int| 0 <= q < best ==> (#[trigger] self.entries@[q]).last_access
                    > self.entries@[best as int].last_access,
            decreases n - i,
        {
            if self.entries[i].last_access < self.entries[best].last_access {
                best = i;
            }
            i = i + 1;
        }
        let victim = self.entries[best].frame;
        self.entries.remove(best);
        victim
    }

    /// Admits or refreshes `frame`; at capacity an untracked frame first
    /// evicts the victim, whose index is returned.
    pub fn insert(&mut self, frame: usize) -> (r: Option<usize>)
        requires
            old(self).wf(),
        ensures
            final(self).wf(),
            final(self).tracks(frame),
            lru_insert_post(*old(self), *final(self), frame, r),
    {
        match self.position_of(frame) {
            Some(_) => {
                self.update_access(frame);
                proof {
                    let (j, t): (int, i64) = choose|j: int, t: i64|
                        0 <= j < old(self).entries@.len() && old(self).entries@[j].frame == frame
                            && t >= 0 && final(self).entries@ == old(self).entries@.update(
                            j,
                            LRUPALTableEntry { frame, last_access: t },
                        );
                    assert(final(self).entries@[j].frame == frame);
                }
                None
            },
            None => {
                let victim = if self.entries.len() >= self.capacity {
                    Some(self.find_frame_to_deallocate())
                } else {
                    None
                };
                let now = now_millis();
                self.entries.push(LRUPALTableEntry { frame, last_access: now });
                proof {
                    let last = final(self).entries@.len() - 1;
                    assert(final(self).entries@[last].frame == frame);
                }
                victim
            },
        }
    }
}

} // verus!
