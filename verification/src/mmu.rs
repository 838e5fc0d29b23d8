//! Translation engine: for each virtual address, consult the page table,
//! fall back to the frame pool, fall back further to the eviction policy,
//! and report whether the address was a hit or a page fault.

use vstd::prelude::*;
use vstd::arithmetic::power2::{pow2, lemma_pow2_strictly_increases, lemma2_to64};
use vstd::bits::lemma_usize_shl_is_mul;
use vstd::string::StringSliceAdditionalSpecFns;

use crate::address::{LogicalAddress, valid_page_size, log2_of, log2s, parsed_address};
use crate::page_table::{PageTable, PageTableEntry};
use crate::primary::{PrimaryMemory, Frame, allocated_count};
use crate::pal::{
    PAL, PALAlgorithm, pal_insert_post, pal_find_post, lemma_pal_insert_props,
    lemma_pal_find_props, lemma_tracks_iff_in_frames,
};
use crate::trace::Trace;

verus! {

/// The outcome of one address translation.
#[derive(Clone, Copy, Debug, PartialEq, Eq, Structural)]
pub enum TranslationResult {
    Fault,
    Hit,
}

/// Why a translation, or a whole run, was rejected.
#[derive(Clone, Copy, Debug, PartialEq, Eq, Structural)]
pub enum TranslationError {
    /// The page number of the address lies outside the page table.
    PageOutOfRange,
    /// A trace token is not a hexadecimal address.
    ParseError,
}

/// The shared machine state of one run: the frame pool and the eviction
/// policy, created once and owned by the caller. Exclusive `&mut` access
/// serialises all mutation, so the allocate-then-register sequence of a
/// fault cannot interleave with another translation.
pub struct Session {
    pub memory: PrimaryMemory,
    pub pal: PAL,
}

impl Session {
    /// The session invariant: the policy's capacity matches the pool size;
    /// the resident set is exactly as large as the number of claimed
    /// frames; and every resident frame is a claimed frame of the pool.
    pub open spec fn wf(self) -> bool {
        &&& self.memory.frames@.len() >= 1
        &&& self.pal.wf()
        &&& self.pal.capacity() == self.memory.frames@.len()
        &&& self.pal.tracked_frames().len() == allocated_count(self.memory.frames@)
        &&& forall|i: int|
            0 <= i < self.pal.tracked_frames().len() ==> (#[trigger] self.pal.tracked_frames()[i])
                < self.memory.frames@.len() && self.memory.frames@[self.pal.tracked_frames()[i] as int].data
    }

    /// A fresh session: a pool of `frame_count` unclaimed frames and an
    /// empty eviction policy of the same capacity.
    pub fn new(algorithm: PALAlgorithm, frame_count: usize) -> (r: Self)
        requires
            frame_count >= 1,
        ensures
            r.wf(),
            r.memory.frames@.len() == frame_count,
            forall|i: int| 0 <= i < frame_count ==> !(#[trigger] r.memory.frames@[i]).data,
            r.pal.algorithm() == algorithm,
            r.pal.capacity() == frame_count,
            r.pal.tracked_frames().len() == 0,
    {
        Session { memory: PrimaryMemory::new(frame_count), pal: PAL::new(algorithm, frame_count) }
    }
}

/// How many pages a 32-bit address space has at this page size.
pub open spec fn table_len(page_size: usize) -> nat {
    pow2((32 - log2s(page_size as nat)) as nat)
}

/// The translation engine: the page table it exclusively owns, and the
/// page size it decodes addresses with.
pub struct MMU {
    pub page_table: PageTable,
    pub page_size: usize,
}

impl MMU {
    pub open spec fn wf(self) -> bool {
        &&& valid_page_size(self.page_size)
        &&& self.page_table.entries@.len() == table_len(self.page_size)
    }

    /// Every valid page-table entry is backed by a frame that the eviction
    /// policy still tracks as resident.
    pub open spec fn compat(self, session: Session) -> bool {
        forall|p: int|
            0 <= p < self.page_table.entries@.len() && (#[trigger] self.page_table.entries@[p]).valid
                ==> session.pal.tracks(self.page_table.entries@[p].page_frame_index)
    }

    /// A fresh engine: one invalid page-table entry per page of the 32-bit
    /// address space at this page size.
    pub fn new(page_size: usize) -> (r: Self)
        requires
            valid_page_size(page_size),
        ensures
            r.wf(),
            r.page_size == page_size,
            forall|p: int|
                0 <= p < r.page_table.entries@.len() ==> (#[trigger] r.page_table.entries@[p])
                    == (PageTableEntry { page_frame_index: 0, valid: false }),
    {
        let k = log2_of(page_size);
        let sh = 32 - k;
        proof {
            lemma2_to64();
            if 32 - k > 31 {
                assert(k < 1);
            }
            lemma_pow2_strictly_increases((32 - k) as nat, 32);
            assert(pow2(32) == 0x1_0000_0000);
            lemma_usize_shl_is_mul(1usize, sh as usize);
        }
        let len = 1usize << sh;
        let mut entries: Vec<PageTableEntry> = Vec::new();
        let mut i: usize = 0;
        while i < len
            invariant
                i <= len,
                entries@.len() == i,
                forall|p: int|
                    0 <= p < i ==> (#[trigger] entries@[p]) == (PageTableEntry {
                        page_frame_index: 0,
                        valid: false,
                    }),
            decreases len - i,
        {
            entries.push(PageTableEntry::default());
            i = i + 1;
        }
        MMU { page_table: PageTable { entries }, page_size }
    }
}

/// Everything one `translate` call did, case by case: an address whose page
/// number lies outside the table is rejected untouched; a page with a valid
/// binding is a hit that only refreshes its frame in the policy; an unbound
/// page is a fault, resolved from the first free frame of the pool while
/// one exists, and through the policy's victim otherwise, in which case
/// every entry bound to the victim is invalidated before the faulting page
/// takes the frame over.
pub open spec fn translate_post(
    m: MMU,
    s: Session,
    m2: MMU,
    s2: Session,
    a: LogicalAddress,
    r: Result<TranslationResult, TranslationError>,
) -> bool {
    let page = a.spec_page(m.page_size) as int;
    let t = m.page_table.entries@;
    let t2 = m2.page_table.entries@;
    if page >= t.len() {
        &&& r == Err::<TranslationResult, TranslationError>(TranslationError::PageOutOfRange)
        &&& m2 == m
        &&& s2 == s
    } else if t[page].valid {
        &&& r == Ok::<TranslationResult, TranslationError>(TranslationResult::Hit)
        &&& m2 == m
        &&& s2.memory == s.memory
        &&& pal_insert_post(s.pal, s2.pal, t[page].page_frame_index, None)
    } else if !s.memory.is_exhausted() {
        &&& r == Ok::<TranslationResult, TranslationError>(TranslationResult::Fault)
        &&& m2.page_size == m.page_size
        &&& exists|f: usize|
            {
                &&& f < s.memory.frames@.len()
                &&& !s.memory.frames@[f as int].data
                &&& (forall|q: int| 0 <= q < f ==> (#[trigger] s.memory.frames@[q]).data)
                &&& s2.memory.frames@ == s.memory.frames@.update(f as int, Frame { data: true })
                &&& t2 == t.update(page, PageTableEntry { page_frame_index: f, valid: true })
                &&& pal_insert_post(s.pal, s2.pal, f, None)
            }
    } else {
        &&& r == Ok::<TranslationResult, TranslationError>(TranslationResult::Fault)
        &&& m2.page_size == m.page_size
        &&& s2.memory == s.memory
        &&& exists|victim: usize, mid: PAL|
            {
                &&& pal_find_post(s.pal, mid, victim)
                &&& pal_insert_post(mid, s2.pal, victim, None)
                &&& t2.len() == t.len()
                &&& t2[page] == (PageTableEntry { page_frame_index: victim, valid: true })
                &&& (forall|p: int|
                    0 <= p < t.len() && p != page && (#[trigger] t[p]).page_frame_index == victim
                        ==> t2[p] == (PageTableEntry {
                        page_frame_index: t[p].page_frame_index,
                        valid: false,
                    }))
                &&& (forall|p: int|
                    0 <= p < t.len() && p != page && (#[trigger] t[p]).page_frame_index != victim
                        ==> t2[p] == t[p])
            }
    }
}

impl MMU {
    /// Resolves one address: a page with a valid binding is a `Hit`; an
    /// unbound page is a `Fault`, resolved by allocation while the pool
    /// lasts and by eviction afterwards. An address whose page number lies
    /// outside the table is rejected and changes nothing.
    pub fn translate(&mut self, session: &mut Session, address: &LogicalAddress) -> (r: Result<
        TranslationResult,
        TranslationError,
    >)
        requires
            old(self).wf(),
            old(session).wf(),
            old(self).compat(*old(session)),
        ensures
            final(self).wf(),
            final(session).wf(),
            final(self).compat(*final(session)),
            final(self).page_size == old(self).page_size,
            final(session).pal.algorithm() == old(session).pal.algorithm(),
            final(session).memory.frames@.len() == old(session).memory.frames@.len(),
            translate_post(*old(self), *old(session), *final(self), *final(session), *address, r),
    {
        let (page, _offset) = address.split(self.page_size);

        if page >= self.page_table.entries.len() {
            return Err(TranslationError::PageOutOfRange);
        }

        match self.page_table.get_frame(page) {
            Some(frame) => {
                let inserted = session.pal.insert(frame);
                proof {
                    lemma_pal_insert_props(old(session).pal, session.pal, frame, inserted);
                }
                Ok(TranslationResult::Hit)
            },
            None => {
                match session.memory.alloc_frame() {
                    Some(frame) => {
                        self.page_table.set_frame(page, frame);
                        let ghost pal_before = session.pal;
                        proof {
                            crate::primary::lemma_allocated_count_le_len(session.memory.frames@);
                            if pal_before.tracks(frame) {
                                lemma_tracks_iff_in_frames(pal_before, frame);
                            }
                            assert(!pal_before.tracks(frame));
                            assert(pal_before.tracked_frames().len() < pal_before.capacity());
                        }
                        let inserted = session.pal.insert(frame);
                        proof {
                            lemma_pal_insert_props(pal_before, session.pal, frame, inserted);
                            assert(session.pal.tracked_frames() == pal_before.tracked_frames().push(
                                frame,
                            ));
                            assert forall|i: int|
                                0 <= i < session.pal.tracked_frames().len() implies (
                            #[trigger] session.pal.tracked_frames()[i])
                                < session.memory.frames@.len()
                                && session.memory.frames@[session.pal.tracked_frames()[i] as int].data by {
                                if i < pal_before.tracked_frames().len() {
                                    assert(old(session).pal.tracked_frames()[i]
                                        == session.pal.tracked_frames()[i]);
                                }
                            }
                        }
                        Ok(TranslationResult::Fault)
                    },
                    None => {
                        let victim = session.pal.find_frame_to_deallocate();
                        let ghost pal_mid = session.pal;
                        proof {
                            lemma_pal_find_props(old(session).pal, pal_mid, victim);
                        }
                        self.page_table.invalidate_frame(victim);
                        self.page_table.set_frame(page, victim);
                        let inserted = session.pal.insert(victim);
                        proof {
                            lemma_pal_insert_props(pal_mid, session.pal, victim, inserted);
                            assert(session.pal.tracked_frames() == pal_mid.tracked_frames().push(
                                victim,
                            ));
                            assert forall|i: int|
                                0 <= i < session.pal.tracked_frames().len() implies (
                            #[trigger] session.pal.tracked_frames()[i])
                                < session.memory.frames@.len()
                                && session.memory.frames@[session.pal.tracked_frames()[i] as int].data by {
                                let f = session.pal.tracked_frames()[i];
                                if i < pal_mid.tracked_frames().len() {
                                    lemma_tracks_iff_in_frames(pal_mid, f);
                                    assert(pal_mid.tracks(f));
                                } else {
                                    assert(f == victim);
                                }
                                assert(old(session).pal.tracks(f));
                                lemma_tracks_iff_in_frames(old(session).pal, f);
                                let q = choose|q: int|
                                    0 <= q < old(session).pal.tracked_frames().len() && (
                                    #[trigger] old(session).pal.tracked_frames()[q]) == f;
                                assert(old(session).pal.tracked_frames()[q] == f);
                            }
                            assert forall|p: int|
                                0 <= p < self.page_table.entries@.len() && (
                            #[trigger] self.page_table.entries@[p]).valid implies session.pal.tracks(
                                self.page_table.entries@[p].page_frame_index,
                            ) by {
                                let pg = address.spec_page(old(self).page_size) as int;
                                if p != pg {
                                    let e = old(self).page_table.entries@[p];
                                    assert(e.valid && e.page_frame_index != victim);
                                    assert(old(session).pal.tracks(e.page_frame_index));
                                    assert(pal_mid.tracks(e.page_frame_index));
                                }
                            }
                        }
                        Ok(TranslationResult::Fault)
                    },
                }
            },
        }
    }

    /// Parses a trace token and translates the address it denotes. A
    /// malformed token is fatal for that address: nothing changes and the
    /// parse error is reported.
    pub fn translate_str(&mut self, session: &mut Session, address: &str) -> (r: Result<
        TranslationResult,
        TranslationError,
    >)
        requires
            old(self).wf(),
            old(session).wf(),
            old(self).compat(*old(session)),
        ensures
            final(self).wf(),
            final(session).wf(),
            final(self).compat(*final(session)),
            match parsed_address(address.spec_bytes()) {
                Some(v) => translate_post(
                    *old(self),
                    *old(session),
                    *final(self),
                    *final(session),
                    LogicalAddress { value: v },
                    r,
                ),
                None => r == Err::<TranslationResult, TranslationError>(
                    TranslationError::ParseError,
                ) && *final(self) == *old(self) && *final(session) == *old(session),
            },
    {
        match LogicalAddress::from_str(address) {
            Some(a) => self.translate(session, &a),
            None => Err(TranslationError::ParseError),
        }
    }
}

/// A whole run: starting from engine `m0` and session `s0`, translating the
/// addresses of `t` in order succeeded with the outcomes `results`, ending
/// in engine `m1` and session `s1`.
pub open spec fn run_post(
    m0: MMU,
    s0: Session,
    t: Seq<LogicalAddress>,
    results: Seq<TranslationResult>,
    m1: MMU,
    s1: Session,
) -> bool
    decreases t.len(),
{
    if t.len() == 0 {
        &&& m1 == m0
        &&& s1 == s0
        &&& results.len() == 0
    } else {
        &&& results.len() >= 1
        &&& exists|mm: MMU, ss: Session|
            {
                &&& #[trigger] translate_post(
                    m0,
                    s0,
                    mm,
                    ss,
                    t[0],
                    Ok::<TranslationResult, TranslationError>(results[0]),
                )
                &&& run_post(mm, ss, t.skip(1), results.skip(1), m1, s1)
            }
    }
}

proof fn lemma_run_post_snoc(
    m0: MMU,
    s0: Session,
    t: Seq<LogicalAddress>,
    results: Seq<TranslationResult>,
    m1: MMU,
    s1: Session,
    a: LogicalAddress,
    outcome: TranslationResult,
    m2: MMU,
    s2: Session,
)
    requires
        run_post(m0, s0, t, results, m1, s1),
        translate_post(m1, s1, m2, s2, a, Ok(outcome)),
    ensures
        run_post(m0, s0, t.push(a), results.push(outcome), m2, s2),
    decreases t.len(),
{
    let t1 = t.push(a);
    let r1 = results.push(outcome);
    assert(t1[0] == if t.len() == 0 { a } else { t[0] });
    if t.len() == 0 {
        assert(results.len() == 0);
        assert(r1[0] == outcome);
        assert(t1.skip(1) =~= Seq::<LogicalAddress>::empty());
        assert(r1.skip(1) =~= Seq::<TranslationResult>::empty());
        assert(translate_post(
            m0,
            s0,
            m2,
            s2,
            t1[0],
            Ok::<TranslationResult, TranslationError>(r1[0]),
        ));
        assert(run_post(m2, s2, t1.skip(1), r1.skip(1), m2, s2));
    } else {
        let (mm, ss): (MMU, Session) = choose|mm: MMU, ss: Session|
            {
                &&& #[trigger] translate_post(
                    m0,
                    s0,
                    mm,
                    ss,
                    t[0],
                    Ok::<TranslationResult, TranslationError>(results[0]),
                )
                &&& run_post(mm, ss, t.skip(1), results.skip(1), m1, s1)
            };
        lemma_run_post_snoc(mm, ss, t.skip(1), results.skip(1), m1, s1, a, outcome, m2, s2);
        assert(t1.skip(1) =~= t.skip(1).push(a));
        assert(r1.skip(1) =~= results.skip(1).push(outcome));
        assert(r1[0] == results[0]);
        assert(translate_post(
            m0,
            s0,
            mm,
            ss,
            t1[0],
            Ok::<TranslationResult, TranslationError>(r1[0]),
        ));
    }
}

/// A translation engine as `MMU::new` builds it: the configured page size
/// and a full page table with no valid entry.
pub open spec fn fresh_engine(m: MMU, page_size: usize) -> bool {
    &&& m.wf()
    &&& m.page_size == page_size
    &&& forall|p: int|
        0 <= p < m.page_table.entries@.len() ==> !(#[trigger] m.page_table.entries@[p]).valid
}

/// A session as `Session::new` builds it: a pool of `frame_count` frames,
/// none claimed, and an empty policy of the chosen algorithm.
pub open spec fn fresh_session(s: Session, algorithm: PALAlgorithm, frame_count: usize) -> bool {
    &&& s.wf()
    &&& s.memory.frames@.len() == frame_count
    &&& allocated_count(s.memory.frames@) == 0
    &&& s.pal.algorithm() == algorithm
    &&& s.pal.capacity() == frame_count
}

/// What a whole `entrypoint` run guarantees: on success, one outcome per
/// address, every page number inside the table, and a chain of translations
/// from a fresh engine and a fresh session of the given configuration to
/// some final state; on failure, the trace holds an address whose page
/// number lies outside the table.
#[verifier::opaque]
pub open spec fn entrypoint_post(
    page_size: usize,
    algorithm: PALAlgorithm,
    frame_count: usize,
    t: Seq<LogicalAddress>,
    r: Result<Vec<TranslationResult>, TranslationError>,
) -> bool {
    match r {
        Ok(results) => {
            &&& results@.len() == t.len()
            &&& (forall|i: int|
                0 <= i < t.len() ==> (#[trigger] t[i]).spec_page(page_size) < table_len(page_size))
            &&& exists|m0: MMU, s0: Session, m1: MMU, s1: Session|
                {
                    &&& fresh_engine(m0, page_size)
                    &&& fresh_session(s0, algorithm, frame_count)
                    &&& #[trigger] run_post(m0, s0, t, results@, m1, s1)
                }
        },
        Err(e) => {
            &&& e == TranslationError::PageOutOfRange
            &&& exists|i: int|
                {
                    &&& 0 <= i < t.len()
                    &&& (#[trigger] t[i]).spec_page(page_size) >= table_len(page_size)
                    &&& forall|q: int|
                        0 <= q < i ==> (#[trigger] t[q]).spec_page(page_size) < table_len(
                            page_size,
                        )
                }
        },
    }
}

proof fn lemma_entrypoint_post_ok(
    page_size: usize,
    algorithm: PALAlgorithm,
    frame_count: usize,
    t: Seq<LogicalAddress>,
    rv: Vec<TranslationResult>,
    m0: MMU,
    s0: Session,
    m1: MMU,
    s1: Session,
)
    requires
        rv@.len() == t.len(),
        forall|i: int|
            0 <= i < t.len() ==> (#[trigger] t[i]).spec_page(page_size) < table_len(page_size),
        fresh_engine(m0, page_size),
        fresh_session(s0, algorithm, frame_count),
        run_post(m0, s0, t, rv@, m1, s1),
    ensures
        entrypoint_post(
            page_size,
            algorithm,
            frame_count,
            t,
            Ok::<Vec<TranslationResult>, TranslationError>(rv),
        ),
{
    reveal(entrypoint_post);
}

proof fn lemma_entrypoint_post_err(
    page_size: usize,
    algorithm: PALAlgorithm,
    frame_count: usize,
    t: Seq<LogicalAddress>,
    i: int,
)
    requires
        0 <= i < t.len(),
        t[i].spec_page(page_size) >= table_len(page_size),
        forall|q: int|
            0 <= q < i ==> (#[trigger] t[q]).spec_page(page_size) < table_len(page_size),
    ensures
        entrypoint_post(
            page_size,
            algorithm,
            frame_count,
            t,
            Err::<Vec<TranslationResult>, TranslationError>(TranslationError::PageOutOfRange),
        ),
{
    reveal(entrypoint_post);
}

/// Runs a whole trace: builds a fresh engine and session from the
/// configuration and translates every address in order, yielding the
/// ordered sequence of outcomes. The run succeeds exactly when every
/// address of the trace has its page number inside the table; it is
/// aborted at the first address that does not.
#[verifier::spinoff_prover]
#[verifier::rlimit(50)]
pub fn entrypoint(
    page_size: usize,
    algorithm: PALAlgorithm,
    frame_count: usize,
    trace: &Trace,
) -> (r: Result<Vec<TranslationResult>, TranslationError>)
    requires
        valid_page_size(page_size),
        frame_count >= 1,
    ensures
        entrypoint_post(page_size, algorithm, frame_count, trace@, r),
{
    let mut mmu = MMU::new(page_size);
    let mut session = Session::new(algorithm, frame_count);
    let ghost m0 = mmu;
    let ghost s0 = session;

    let mut results: Vec<TranslationResult> = Vec::new();
    let n = trace.len();
    let mut i: usize = 0;
    while i < n
        invariant
            i <= n,
            n == trace@.len(),
            results@.len() == i,
            valid_page_size(page_size),
            mmu.wf(),
            session.wf(),
            mmu.compat(session),
            mmu.page_size == page_size,
            fresh_engine(m0, page_size),
            fresh_session(s0, algorithm, frame_count),
            forall|q: int|
                0 <= q < i ==> (#[trigger] trace@[q]).spec_page(page_size) < table_len(page_size),
            run_post(m0, s0, trace@.subrange(0, i as int), results@, mmu, session),
        decreases n - i,
    {
        let ghost m_prev = mmu;
        let ghost s_prev = session;
        let address = trace.get(i);
        match mmu.translate(&mut session, address) {
            Ok(outcome) => {
                let ghost res_prev = results@;
                results.push(outcome);
                proof {
                    lemma_run_post_snoc(
                        m0,
                        s0,
                        trace@.subrange(0, i as int),
                        res_prev,
                        m_prev,
                        s_prev,
                        trace@[i as int],
                        outcome,
                        mmu,
                        session,
                    );
                    assert(trace@.subrange(0, i as int + 1) =~= trace@.subrange(0, i as int).push(
                        trace@[i as int],
                    ));
                    assert(results@ == res_prev.push(outcome));
                }
            },
            Err(e) => {
                proof {
                    assert(trace@[i as int].spec_page(page_size) >= table_len(page_size));
                    lemma_entrypoint_post_err(page_size, algorithm, frame_count, trace@, i as int);
                }
                return Err(e);
            },
        }
        i = i + 1;
    }
    proof {
        assert(trace@.subrange(0, n as int) =~= trace@);
        assert(run_post(m0, s0, trace@, results@, mmu, session));
        lemma_entrypoint_post_ok(
            page_size,
            algorithm,
            frame_count,
            trace@,
            results,
            m0,
            s0,
            mmu,
            session,
        );
    }
    Ok(results)
}

/// Translating the same address twice in a row on an otherwise-empty
/// engine faults once and then hits: the fault binds the page, so the
/// second lookup finds it.
pub proof fn lemma_translate_twice_fault_then_hit(
    m0: MMU,
    s0: Session,
    m1: MMU,
    s1: Session,
    m2: MMU,
    s2: Session,
    a: LogicalAddress,
    r1: Result<TranslationResult, TranslationError>,
    r2: Result<TranslationResult, TranslationError>,
)
    requires
        m0.wf(),
        s0.wf(),
        forall|p: int|
            0 <= p < m0.page_table.entries@.len() ==> !(#[trigger] m0.page_table.entries@[p]).valid,
        a.spec_page(m0.page_size) < m0.page_table.entries@.len(),
        !s0.memory.is_exhausted(),
        translate_post(m0, s0, m1, s1, a, r1),
        translate_post(m1, s1, m2, s2, a, r2),
    ensures
        r1 == Ok::<TranslationResult, TranslationError>(TranslationResult::Fault),
        r2 == Ok::<TranslationResult, TranslationError>(TranslationResult::Hit),
{
    let page = a.spec_page(m0.page_size) as int;
    let f = choose|f: usize|
        {
            &&& f < s0.memory.frames@.len()
            &&& !s0.memory.frames@[f as int].data
            &&& (forall|q: int| 0 <= q < f ==> (#[trigger] s0.memory.frames@[q]).data)
            &&& s1.memory.frames@ == s0.memory.frames@.update(f as int, Frame { data: true })
            &&& m1.page_table.entries@ == m0.page_table.entries@.update(
                page,
                PageTableEntry { page_frame_index: f, valid: true },
            )
            &&& pal_insert_post(s0.pal, s1.pal, f, None)
        };
    assert(m1.page_table.entries@[page].valid);
}

/// Once the frame pool is exhausted, a fault is resolved through eviction:
/// the pool itself is untouched (so it stays exhausted), and every page
/// that was bound to the victim frame is invalid afterwards, while the
/// faulting page has taken the victim frame over.
pub proof fn lemma_exhausted_fault_evicts(
    m0: MMU,
    s0: Session,
    m1: MMU,
    s1: Session,
    a: LogicalAddress,
    r: Result<TranslationResult, TranslationError>,
)
    requires
        m0.wf(),
        s0.wf(),
        s0.memory.is_exhausted(),
        a.spec_page(m0.page_size) < m0.page_table.entries@.len(),
        !m0.page_table.entries@[a.spec_page(m0.page_size) as int].valid,
        translate_post(m0, s0, m1, s1, a, r),
    ensures
        r == Ok::<TranslationResult, TranslationError>(TranslationResult::Fault),
        s1.memory == s0.memory,
        exists|victim: usize|
            {
                &&& #[trigger] s0.pal.tracks(victim)
                &&& m1.page_table.entries@[a.spec_page(m0.page_size) as int] == (PageTableEntry {
                    page_frame_index: victim,
                    valid: true,
                })
                &&& forall|p: int|
                    0 <= p < m0.page_table.entries@.len() && p != a.spec_page(m0.page_size) as int
                        && (#[trigger] m0.page_table.entries@[p]).valid
                        && m0.page_table.entries@[p].page_frame_index == victim
                        ==> !m1.page_table.entries@[p].valid
            },
{
    let page = a.spec_page(m0.page_size) as int;
    let t = m0.page_table.entries@;
    let t2 = m1.page_table.entries@;
    let (victim, mid): (usize, PAL) = choose|victim: usize, mid: PAL|
        {
            &&& pal_find_post(s0.pal, mid, victim)
            &&& pal_insert_post(mid, s1.pal, victim, None)
            &&& t2.len() == t.len()
            &&& t2[page] == (PageTableEntry { page_frame_index: victim, valid: true })
            &&& (forall|p: int|
                0 <= p < t.len() && p != page && (#[trigger] t[p]).page_frame_index == victim
                    ==> t2[p] == (PageTableEntry {
                    page_frame_index: t[p].page_frame_index,
                    valid: false,
                }))
            &&& (forall|p: int|
                0 <= p < t.len() && p != page && (#[trigger] t[p]).page_frame_index != victim
                    ==> t2[p] == t[p])
        };
    lemma_pal_find_props(s0.pal, mid, victim);
    assert(s0.pal.tracks(victim));
    assert(t2[page] == (PageTableEntry { page_frame_index: victim, valid: true }));
}

} // verus!
