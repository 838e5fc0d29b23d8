//! Primary memory: a fixed-size pool of physical frames, each carrying a
//! claim flag, with best-effort linear allocation. The pool never returns a
//! claimed frame to the free state: once the pool is exhausted, frames are
//! recycled directly through the eviction policy.

use vstd::prelude::*;

verus! {

/// One physical frame; `data` stands in for real contents and records
/// whether the frame has been claimed.
#[derive(Clone, Copy, Debug, PartialEq, Eq, Structural)]
pub struct Frame {
    pub data: bool,
}

/// How many frames of the pool are claimed.
pub open spec fn allocated_count(s: Seq<Frame>) -> nat
    decreases s.len(),
{
    if s.len() == 0 {
        0
    } else {
        allocated_count(s.drop_last()) + if s.last().data {
            1nat
        } else {
            0nat
        }
    }
}

pub proof fn lemma_allocated_count_le_len(s: Seq<Frame>)
    ensures
        allocated_count(s) <= s.len(),
    decreases s.len(),
{
    if s.len() > 0 {
        lemma_allocated_count_le_len(s.drop_last());
    }
}

pub proof fn lemma_allocated_count_all_free(s: Seq<Frame>)
    requires
        forall|i: int| 0 <= i < s.len() ==> !(#[trigger] s[i]).data,
    ensures
        allocated_count(s) == 0,
    decreases s.len(),
{
    if s.len() > 0 {
        lemma_allocated_count_all_free(s.drop_last());
    }
}

pub proof fn lemma_allocated_count_all_claimed(s: Seq<Frame>)
    requires
        forall|i: int| 0 <= i < s.len() ==> (#[trigger] s[i]).data,
    ensures
        allocated_count(s) == s.len(),
    decreases s.len(),
{
    if s.len() > 0 {
        lemma_allocated_count_all_claimed(s.drop_last());
    }
}

pub proof fn lemma_allocated_count_claim(s: Seq<Frame>, i: int)
    requires
        0 <= i < s.len(),
        !s[i].data,
    ensures
        allocated_count(s.update(i, Frame { data: true })) == allocated_count(s) + 1,
    decreases s.len(),
{
    let s2 = s.update(i, Frame { data: true });
    if i == s.len() - 1 {
        assert(s2.drop_last() =~= s.drop_last());
    } else {
        lemma_allocated_count_claim(s.drop_last(), i);
        assert(s2.drop_last() =~= s.drop_last().update(i, Frame { data: true }));
        assert(s2.last() == s.last());
    }
}

/// The fixed pool of physical frames.
#[derive(Clone, Debug)]
pub struct PrimaryMemory {
    pub frames: Vec<Frame>,
}

impl PrimaryMemory {
    /// Every frame of the pool is claimed; further allocation fails.
    pub open spec fn is_exhausted(self) -> bool {
        forall|i: int| 0 <= i < self.frames@.len() ==> (#[trigger] self.frames@[i]).data
    }

    /// A fresh pool of `size` unclaimed frames.
    pub fn new(size: usize) -> (r: Self)
        ensures
            r.frames@.len() == size,
            forall|i: int| 0 <= i < size ==> !(#[trigger] r.frames@[i]).data,
            allocated_count(r.frames@) == 0,
    {
        let mut frames: Vec<Frame> = Vec::new();
        let mut i: usize = 0;
        while i < size
            invariant
                i <= size,
                frames@.len() == i,
                forall|q: int| 0 <= q < i ==> !(#[trigger] frames@[q]).data,
            decreases size - i,
        {
            frames.push(Frame { data: false });
            i = i + 1;
        }
        proof {
            lemma_allocated_count_all_free(frames@);
        }
        PrimaryMemory { frames }
    }

    /// Whether the frame at `index` is claimed.
    pub fn get_frame(&self, index: usize) -> (r: bool)
        requires
            index < self.frames@.len(),
        ensures
            r == self.frames@[index as int].data,
    {
        self.frames[index].data
    }

    /// Claims the first unclaimed frame and returns its index, or `None`
    /// when the pool is exhausted.
    pub fn alloc_frame(&mut self) -> (r: Option<usize>)
        ensures
            final(self).frames@.len() == old(self).frames@.len(),
            match r {
                Some(i) => {
                    &&& i < old(self).frames@.len()
                    &&& !old(self).frames@[i as int].data
                    &&& forall|q: int| 0 <= q < i ==> (#[trigger] old(self).frames@[q]).data
                    &&& final(self).frames@ == old(self).frames@.update(
                        i as int,
                        Frame { data: true },
                    )
                    &&& allocated_count(final(self).frames@) == allocated_count(
                        old(self).frames@,
                    ) + 1
                },
                None => {
                    &&& old(self).is_exhausted()
                    &&& *final(self) == *old(self)
                    &&& allocated_count(final(self).frames@) == old(self).frames@.len()
                },
            },
    {
        let n = self.frames.len();
        let mut i: usize = 0;
        while i < n
            invariant
                i <= n,
                n == self.frames@.len(),
                self == old(self),
                forall|q: int| 0 <= q < i ==> (#[trigger] self.frames@[q]).data,
            decreases n - i,
        {
            if !self.frames[i].data {
                proof {
                    lemma_allocated_count_claim(self.frames@, i as int);
                }
                self.frames.set(i, Frame { data: true });
                return Some(i);
            }
            i = i + 1;
        }
        proof {
            lemma_allocated_count_all_claimed(self.frames@);
        }
        None
    }
}

} // verus!
