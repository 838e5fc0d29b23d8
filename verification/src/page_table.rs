//! Page table: an ordered array of entries, indexed by page number, each
//! binding the page to a physical frame when its `valid` flag is set.
//! Mutated only by the translation engine.

use vstd::prelude::*;

verus! {

/// One page-table entry: the frame currently backing the page, meaningful
/// only while `valid` is set.
#[derive(Clone, Copy, Debug, PartialEq, Eq, Structural)]
pub struct PageTableEntry {
    pub page_frame_index: usize,
    pub valid: bool,
}

impl Default for PageTableEntry {
    /// A fresh entry is invalid and bound to no frame.
    fn default() -> (r: Self)
        ensures
            r.page_frame_index == 0,
            !r.valid,
    {
        PageTableEntry { page_frame_index: 0, valid: false }
    }
}

/// Mapping from page number to physical frame: the entry at index `p`
/// describes page `p`.
#[derive(Clone, Debug)]
pub struct PageTable {
    pub entries: Vec<PageTableEntry>,
}

impl PageTable {
    /// The frame backing `index`, or `None` while the entry is invalid.
    pub fn get_frame(&self, index: usize) -> (r: Option<usize>)
        requires
            index < self.entries@.len(),
        ensures
            r == if self.entries@[index as int].valid {
                Some(self.entries@[index as int].page_frame_index)
            } else {
                None::<usize>
            },
    {
        let entry = self.entries[index];

        match entry.valid {
            true => Some(entry.page_frame_index),
            false => None,
        }
    }

    /// Binds page `index` to `frame` and marks it valid, overwriting any
    /// previous binding for that page.
    pub fn set_frame(&mut self, index: usize, frame: usize)
        requires
            index < old(self).entries@.len(),
        ensures
            final(self).entries@ == old(self).entries@.update(
                index as int,
                PageTableEntry { page_frame_index: frame, valid: true },
            ),
    {
        self.entries.set(index, PageTableEntry { page_frame_index: frame, valid: true });
    }

    /// Resets page `index` to the invalid, unbound state.
    pub fn invalidate(&mut self, index: usize)
        requires
            index < old(self).entries@.len(),
        ensures
            final(self).entries@ == old(self).entries@.update(
                index as int,
                PageTableEntry { page_frame_index: 0, valid: false },
            ),
    {
        self.entries.set(index, PageTableEntry::default());
    }

    /// Invalidates every entry currently bound to `frame`. The allocation
    /// discipline keeps at most one such entry, but this scans the whole
    /// table and does not assume it.
    pub fn invalidate_frame(&mut self, frame: usize)
        ensures
            final(self).entries@.len() == old(self).entries@.len(),
            forall|p: int| 0 <= p < old(self).entries@.len() ==> final(self).entries@[p] == (
                if old(self).entries@[p].page_frame_index == frame {
                    PageTableEntry { page_frame_index: old(self).entries@[p].page_frame_index, valid: false }
                } else {
                    old(self).entries@[p]
                }
            ),
    {
        let n = self.entries.len();
        let mut p: usize = 0;
        while p < n
            invariant
                n == self.entries@.len(),
                n == old(self).entries@.len(),
                p <= n,
                forall|q: int| 0 <= q < p ==> self.entries@[q] == (
                    if old(self).entries@[q].page_frame_index == frame {
                        PageTableEntry {
                            page_frame_index: old(self).entries@[q].page_frame_index,
                            valid: false,
                        }
                    } else {
                        old(self).entries@[q]
                    }
                ),
                forall|q: int| p <= q < n ==> self.entries@[q] == old(self).entries@[q],
            decreases n - p,
        {
            if self.entries[p].page_frame_index == frame {
                let kept = self.entries[p].page_frame_index;
                self.entries.set(p, PageTableEntry { page_frame_index: kept, valid: false });
            }
            p = p + 1;
        }
    }
}

} // verus!
