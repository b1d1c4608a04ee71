//! The guest-physical page pool and the 4-level radix page tables built
//! over it.
//!
//! The pool hands out 4 KiB page frames from a pre-reserved
//! guest-physical range and keeps the contents of every frame it has
//! handed out as part of its own state: the frames form an arena,
//! addressed by page index, standing for the raw memory the hardware
//! would walk. Page-table entries hold guest-physical addresses in the
//! hardware format (`address | flags`), so the arena can be copied
//! verbatim into guest memory by the surrounding application.

use vstd::prelude::*;

use crate::addr::Addr;
use crate::addr::PageOpts;
use crate::common::Error;

verus! {

pub const PAGE_SIZE_4K: u64 = 0x1000;
pub const ENTRY_COUNT: u16 = 512;
/// Highest address of the lower canonical half.
pub const LOWER_TOP: u64 = 0x0000_7fff_ffff_ffff;
/// Lowest address of the upper canonical half.
pub const UPPER_BOTTOM: u64 = 0xffff_8000_0000_0000;
pub const PTE_PRESENT: u64 = 1;
pub const PTE_WRITABLE: u64 = 2;
pub const PTE_USER: u64 = 4;
/// present | writable | user: the flags every entry is installed with.
pub const PTE_DEFAULT_FLAGS: u64 = 7;
/// The address bits of a page-table entry (bits 12 through 51).
pub const PTE_ADDR_MASK: u64 = 0x000f_ffff_ffff_f000;
/// One past the highest representable physical address (2^52).
pub const MAX_PHY_ADDR: u64 = 0x0010_0000_0000_0000;

/// One 4 KiB page frame of the pool, held as its 512 8-byte entries.
pub struct PageFrame {
    pub entries: Vec<u64>,
}

/// Source of guest-physical page frames: LIFO reuse of freed pages,
/// then a bump cursor over `[baseAddr, baseAddr + pageCount pages)`.
pub struct PagePool {
    pub baseAddr: Addr,
    pub next: u32,
    pub pageCount: u32,
    pub freePool: Vec<u32>,
    /// The contents of the frames handed out so far, by page index.
    pub frames: Vec<PageFrame>,
}

impl PagePool {
    /// Well-formedness: the bump cursor is inside the pool, one frame
    /// is held per handed-out page, every frame has 512 entries, the
    /// base is page-aligned, the whole pool lies below the physical
    /// address ceiling, and the free list holds distinct allocated
    /// indices.
    pub open spec fn wf(self) -> bool {
        &&& self.next <= self.pageCount
        &&& self.frames.len() == self.next
        &&& (forall|i: int|
            0 <= i < self.frames.len() ==> (#[trigger] self.frames[i].entries.len()) == 512)
        &&& (self.baseAddr.0 as int) % (PAGE_SIZE_4K as int) == 0
        &&& self.baseAddr.0 + self.pageCount * PAGE_SIZE_4K <= MAX_PHY_ADDR
        &&& (forall|i: int| 0 <= i < self.freePool.len() ==> (#[trigger] self.freePool[i]) < self.next)
        &&& (forall|i: int, j: int|
            0 <= i < j < self.freePool.len() ==> self.freePool[i] != self.freePool[j])
    }

    /// Whether `a` is the guest-physical address of a frame the pool
    /// has handed out.
    pub open spec fn is_table_addr(self, a: u64) -> bool {
        &&& self.baseAddr.0 <= a
        &&& a < self.baseAddr.0 + self.next * PAGE_SIZE_4K
        &&& (a as int) % (PAGE_SIZE_4K as int) == 0
    }

    /// The page index of frame address `a`.
    pub open spec fn frame_idx(self, a: u64) -> int {
        (a - self.baseAddr.0) / (PAGE_SIZE_4K as int)
    }

    /// The entry at slot `s` of the frame at address `a`; 0 whenever
    /// the address or slot is invalid.
    pub open spec fn entry(self, a: u64, s: int) -> u64 {
        if self.is_table_addr(a) && 0 <= s < 512 {
            self.frames[self.frame_idx(a)].entries[s]
        } else {
            0
        }
    }

    /// Whether the frame at address `a` is on the free list.
    pub open spec fn is_free(self, a: u64) -> bool {
        self.freePool@.contains((self.frame_idx(a)) as u32)
    }

    /// What the next `Allocate` on this state returns: the most
    /// recently freed page first, else the bump cursor's page, else
    /// nothing (exhaustion).
    pub open spec fn allocate_result(self) -> Option<u64> {
        if self.freePool.len() > 0 {
            Some((self.baseAddr.0 + self.freePool[self.freePool.len() - 1] * PAGE_SIZE_4K) as u64)
        } else if self.next < self.pageCount {
            Some((self.baseAddr.0 + self.next * PAGE_SIZE_4K) as u64)
        } else {
            None
        }
    }

    pub fn Init(baseAddr: Addr, pageCount: u32) -> (r: Result<Self, Error>)
        ensures
            r matches Ok(p) && p.baseAddr == baseAddr && p.next == 0 && p.pageCount == pageCount
                && p.freePool@.len() == 0 && p.frames@.len() == 0,
            ((baseAddr.0 as int) % (PAGE_SIZE_4K as int) == 0 && baseAddr.0 + pageCount
                * PAGE_SIZE_4K <= MAX_PHY_ADDR) ==> (r matches Ok(p) && p.wf()),
    {
        return Ok(
            PagePool {
                baseAddr: baseAddr,
                next: 0,
                pageCount,
                freePool: Vec::new(),
                frames: Vec::new(),
            },
        );
    }

    /// Rebuilds a pool descriptor over frames that already live in
    /// memory the pool does not model (the guest-side view of a pool
    /// the host set up); the arena starts empty, so such a pool is
    /// only a descriptor, not a walkable arena.
    pub fn InitWithPara(baseAddr: u64, pageCount: u32, next: u32) -> (r: Self)
        ensures
            r.baseAddr.0 == baseAddr && r.next == next && r.pageCount == pageCount
                && r.freePool@.len() == 0 && r.frames@.len() == 0,
    {
        return PagePool {
            baseAddr: Addr(baseAddr),
            next: next,
            pageCount,
            freePool: Vec::new(),
            frames: Vec::new(),
        };
    }

    /// Hands out a page: the most recently freed one if any (its stale
    /// contents kept), else a fresh zeroed page at the bump cursor,
    /// else fails with `NoEnoughMemory`. Entries of frames already
    /// handed out are untouched.
    pub fn Allocate(&mut self) -> (r: Result<Addr, Error>)
        requires
            old(self).wf(),
        ensures
            final(self).wf(),
            final(self).baseAddr == old(self).baseAddr,
            final(self).pageCount == old(self).pageCount,
            forall|b: u64, t: int|
                old(self).is_table_addr(b) ==> final(self).entry(b, t) == old(self).entry(b, t),
            match old(self).allocate_result() {
                Some(a) => r matches Ok(x) && x.0 == a,
                None => r matches Err(e) && e is NoEnoughMemory,
            },
            old(self).freePool@.len() > 0 ==> {
                &&& final(self).freePool@ == old(self).freePool@.drop_last()
                &&& final(self).next == old(self).next
                &&& final(self).frames@ == old(self).frames@
            },
            old(self).freePool@.len() == 0 && old(self).next < old(self).pageCount ==> {
                &&& final(self).freePool@ == old(self).freePool@
                &&& final(self).next == old(self).next + 1
                &&& final(self).frames@.len() == old(self).frames@.len() + 1
                &&& (forall|i: int|
                    0 <= i < old(self).frames@.len() ==> final(self).frames@[i] == old(
                        self,
                    ).frames@[i])
                &&& (forall|t: int|
                    (#[trigger] final(self).entry(
                        (old(self).baseAddr.0 + old(self).next * PAGE_SIZE_4K) as u64,
                        t,
                    )) == 0)
            },
            old(self).freePool@.len() == 0 && old(self).next == old(self).pageCount ==> *final(self)
                == *old(self),
            r matches Ok(x) ==> final(self).is_table_addr(x.0) && !final(self).is_free(x.0),
    {
        if self.freePool.len() > 0 {
            let idx = self.freePool[self.freePool.len() - 1];
            self.freePool.pop();
            let r = self.baseAddr.AddLen(idx as u64 * PAGE_SIZE_4K);
            proof {
                let n = self.next;
                assert(idx * PAGE_SIZE_4K <= n * PAGE_SIZE_4K) by (nonlinear_arith)
                    requires
                        idx <= n,
                ;
                lemma_page_addr_props(self.baseAddr.0, idx as int, self.next as int);
            }
            return r;
        }
        if self.next == self.pageCount {
            return Err(Error::NoEnoughMemory);
        }
        let idx = self.next;
        self.next = self.next + 1;
        let mut entries: Vec<u64> = Vec::new();
        let mut k: usize = 0;
        while k < 512
            invariant
                entries@.len() == k,
                k <= 512,
                forall|i: int| 0 <= i < k ==> entries@[i] == 0u64,
            decreases 512 - k,
        {
            entries.push(0u64);
            k = k + 1;
        }
        self.frames.push(PageFrame { entries });
        let r = self.baseAddr.AddLen(idx as u64 * PAGE_SIZE_4K);
        proof {
            assert(idx * PAGE_SIZE_4K < self.pageCount * PAGE_SIZE_4K) by (nonlinear_arith)
                requires
                    idx < self.pageCount,
            ;
            lemma_page_addr_props(self.baseAddr.0, idx as int, self.next as int);
        }
        return r;
    }

    /// Returns a page to the free list. Misaligned addresses and
    /// addresses outside the pool are rejected; freeing a page that
    /// was never handed out, or twice, is the caller's contract and is
    /// excluded by precondition rather than detected.
    pub fn Free(&mut self, addr: Addr) -> (r: Result<(), Error>)
        requires
            old(self).wf(),
            ((addr.0 as int) % (PAGE_SIZE_4K as int) == 0 && old(self).baseAddr.0 <= addr.0
                && ((old(self).frame_idx(addr.0)) as u32) < old(self).pageCount) ==> (((old(
                self,
            ).frame_idx(addr.0)) as u32) < old(self).next && !old(self).is_free(addr.0)),
        ensures
            final(self).wf(),
            (addr.0 as int) % (PAGE_SIZE_4K as int) != 0 ==> (r matches Err(e)
                && e is UnallignedAddress && *final(self) == *old(self)),
            (addr.0 as int) % (PAGE_SIZE_4K as int) == 0 && addr.0 < old(self).baseAddr.0 ==> (
            r matches Err(e) && e is AddressNotInRange && *final(self) == *old(self)),
            (addr.0 as int) % (PAGE_SIZE_4K as int) == 0 && addr.0 >= old(self).baseAddr.0 && ((old(
                self,
            ).frame_idx(addr.0)) as u32) >= old(self).pageCount ==> (r matches Err(e)
                && e is AddressNotInRange && *final(self) == *old(self)),
            (addr.0 as int) % (PAGE_SIZE_4K as int) == 0 && addr.0 >= old(self).baseAddr.0 && ((old(
                self,
            ).frame_idx(addr.0)) as u32) < old(self).pageCount ==> (r is Ok
                && final(self).freePool@ == old(self).freePool@.push(
                (old(self).frame_idx(addr.0)) as u32,
            ) && final(self).next == old(self).next && final(self).frames@ == old(self).frames@
                && final(self).baseAddr == old(self).baseAddr && final(self).pageCount == old(
                self,
            ).pageCount),
    {
        match addr.PageAligned() {
            Ok(_) => {},
            Err(e) => {
                return Err(e);
            },
        }
        let idx = match self.baseAddr.PageOffsetIdx(addr) {
            Ok(i) => i,
            Err(e) => {
                return Err(e);
            },
        };
        if idx >= self.pageCount {
            return Err(Error::AddressNotInRange);
        }
        self.freePool.push(idx);
        return Ok(());
    }

    pub fn GetPageIdx(&self, addr: Addr) -> (r: Result<u32, Error>)
        ensures
            crate::addr::round_down(addr.0 as int) < self.baseAddr.0 ==> (r matches Err(e)
                && e is AddressNotInRange),
            crate::addr::round_down(addr.0 as int) >= self.baseAddr.0 ==> (r matches Ok(i) && i == ((
            crate::addr::round_down(addr.0 as int) - self.baseAddr.0) / (PAGE_SIZE_4K as int)) as u32),
    {
        self.baseAddr.PageOffsetIdx(addr)
    }

    pub fn GetPageAddr(&self, idx: u32) -> (r: Result<Addr, Error>)
        requires
            self.wf(),
        ensures
            idx >= self.pageCount ==> (r matches Err(e) && e is AddressNotInRange),
            idx < self.pageCount ==> (r matches Ok(a) && a.0 == self.baseAddr.0 + idx
                * PAGE_SIZE_4K),
    {
        if idx >= self.pageCount {
            return Err(Error::AddressNotInRange);
        }
        proof {
            assert(idx * PAGE_SIZE_4K <= self.pageCount * PAGE_SIZE_4K) by (nonlinear_arith)
                requires
                    idx <= self.pageCount,
            ;
        }
        return Ok(self.baseAddr.AddPages(idx));
    }

    /// Reads the entry at slot `s` of the frame at address `a`.
    pub(crate) fn read_entry(&self, a: u64, s: usize) -> (r: u64)
        requires
            self.wf(),
            self.is_table_addr(a),
            s < 512,
        ensures
            r == self.entry(a, s as int),
    {
        proof {
            lemma_frame_idx_bounds(*self, a);
        }
        let idx = ((a - self.baseAddr.0) / PAGE_SIZE_4K) as usize;
        return self.frames[idx].entries[s];
    }

    /// Writes the entry at slot `s` of the frame at address `a`; every
    /// other entry of the arena is untouched.
    pub(crate) fn write_entry(&mut self, a: u64, s: usize, val: u64)
        requires
            old(self).wf(),
            old(self).is_table_addr(a),
            s < 512,
        ensures
            final(self).wf(),
            final(self).baseAddr == old(self).baseAddr,
            final(self).next == old(self).next,
            final(self).pageCount == old(self).pageCount,
            final(self).freePool@ == old(self).freePool@,
            final(self).frames@.len() == old(self).frames@.len(),
            final(self).entry(a, s as int) == val,
            forall|b: u64, t: int|
                !(b == a && t == s as int) ==> final(self).entry(b, t) == old(self).entry(b, t),
    {
        proof {
            lemma_frame_idx_bounds(*self, a);
        }
        let idx = ((a - self.baseAddr.0) / PAGE_SIZE_4K) as usize;
        self.frames[idx].entries[s] = val;
        proof {
            assert forall|b: u64, t: int| !(b == a && t == s as int) implies final(self).entry(b, t)
                == old(self).entry(b, t) by {
                if old(self).is_table_addr(b) && 0 <= t < 512 {
                    lemma_frame_idx_bounds(*old(self), b);
                    if b != a && old(self).frame_idx(b) == old(self).frame_idx(a) {
                        lemma_frame_idx_injective(*old(self), a, b);
                    }
                }
            }
        }
    }

    /// Clears every entry of the frame at address `a`.
    pub(crate) fn zero_frame(&mut self, a: u64)
        requires
            old(self).wf(),
            old(self).is_table_addr(a),
        ensures
            final(self).wf(),
            final(self).baseAddr == old(self).baseAddr,
            final(self).next == old(self).next,
            final(self).pageCount == old(self).pageCount,
            final(self).freePool@ == old(self).freePool@,
            final(self).frames@.len() == old(self).frames@.len(),
            forall|t: int| (#[trigger] final(self).entry(a, t)) == 0,
            forall|b: u64, t: int| b != a ==> final(self).entry(b, t) == old(self).entry(b, t),
    {
        let mut s: usize = 0;
        while s < 512
            invariant
                self.wf(),
                self.is_table_addr(a),
                s <= 512,
                self.baseAddr == old(self).baseAddr,
                self.next == old(self).next,
                self.pageCount == old(self).pageCount,
                self.freePool@ == old(self).freePool@,
                self.frames@.len() == old(self).frames@.len(),
                forall|t: int| 0 <= t < s ==> (#[trigger] self.entry(a, t)) == 0,
                forall|b: u64, t: int| b != a ==> self.entry(b, t) == old(self).entry(b, t),
            decreases 512 - s,
        {
            self.write_entry(a, s, 0);
            s = s + 1;
        }
    }
}

/// Page addresses computed from in-range indices stay inside the pool,
/// aligned, and decode back to their index.
proof fn lemma_page_addr_props(base: u64, idx: int, next: int)
    requires
        (base as int) % (PAGE_SIZE_4K as int) == 0,
        0 <= idx,
    ensures
        (base + idx * PAGE_SIZE_4K) % (PAGE_SIZE_4K as int) == 0,
        (base + idx * PAGE_SIZE_4K - base) / (PAGE_SIZE_4K as int) == idx,
{
    assert((base + idx * 0x1000) % 0x1000 == 0 && (base + idx * 0x1000 - base) / 0x1000 == idx)
        by (nonlinear_arith)
        requires
            (base as int) % 0x1000 == 0,
            0 <= idx,
    ;
}

/// A valid table address decodes to a frame index inside the arena.
proof fn lemma_frame_idx_bounds(p: PagePool, a: u64)
    requires
        p.wf(),
        p.is_table_addr(a),
    ensures
        0 <= p.frame_idx(a) < p.frames.len(),
        p.frames[p.frame_idx(a)].entries.len() == 512,
{
    assert(0 <= (a - p.baseAddr.0) / (PAGE_SIZE_4K as int) < p.next) by (nonlinear_arith)
        requires
            p.baseAddr.0 <= a < p.baseAddr.0 + p.next * PAGE_SIZE_4K,
    ;
}

/// Two distinct valid table addresses have distinct frame indices.
proof fn lemma_frame_idx_injective(p: PagePool, a: u64, b: u64)
    requires
        p.wf(),
        p.is_table_addr(a),
        p.is_table_addr(b),
        a != b,
    ensures
        p.frame_idx(a) != p.frame_idx(b),
{
    assert((a - p.baseAddr.0) / 0x1000 != (b - p.baseAddr.0) / 0x1000) by (nonlinear_arith)
        requires
            (a as int) % 0x1000 == 0,
            (b as int) % 0x1000 == 0,
            p.baseAddr.0 <= a,
            p.baseAddr.0 <= b,
            a != b,
            (p.baseAddr.0 as int) % 0x1000 == 0,
    ;
}


/// Virtual page number of `vaddr`: its index among 4 KiB pages.
pub open spec fn vpn_of(vaddr: u64) -> u64 {
    vaddr / PAGE_SIZE_4K
}

/// The first page number of a range starting at `start`.
pub open spec fn span_first(start: u64) -> u64 {
    start / PAGE_SIZE_4K
}

/// How many pages a walk over `[start, end)` touches: one per page
/// begun.
pub open spec fn span_count(start: u64, end: u64) -> int {
    ((end as int) - (start as int) + (PAGE_SIZE_4K - 1)) / (PAGE_SIZE_4K as int)
}

/// Whether page number `q` lies in the pages of `[start, end)`.
pub open spec fn in_span(q: u64, start: u64, end: u64) -> bool {
    span_first(start) <= q < span_first(start) + span_count(start, end)
}

/// The physical page that page number `q` of a run starting at
/// `start` maps to, for a run placed at `phys`.
pub open spec fn span_target(q: u64, start: u64, phys: u64) -> u64 {
    ((phys as int) + (q - span_first(start)) * (PAGE_SIZE_4K as int)) as u64
}

/// The 9-bit slot a page number selects in the top-level table.
pub open spec fn l4_idx(vpn: u64) -> int {
    ((vpn >> 27) & 0x1ff) as int
}

pub open spec fn l3_idx(vpn: u64) -> int {
    ((vpn >> 18) & 0x1ff) as int
}

pub open spec fn l2_idx(vpn: u64) -> int {
    ((vpn >> 9) & 0x1ff) as int
}

pub open spec fn l1_idx(vpn: u64) -> int {
    (vpn & 0x1ff) as int
}

/// A page number that comes from a canonical virtual address: below
/// the lower half's top, or in the sign-extended upper half.
pub open spec fn vpn_canonical(p: u64) -> bool {
    p < 0x8_0000_0000 || (0xf_fff8_0000_0000 <= p && p < 0x10_0000_0000_0000)
}

/// The table (or page) an entry points at, if the entry is present.
pub open spec fn child(pool: PagePool, t: u64, s: int) -> Option<u64> {
    let e = pool.entry(t, s);
    if e != 0 {
        Some(e & PTE_ADDR_MASK)
    } else {
        None
    }
}

/// The level-3 table on the walk of page number `p`.
pub open spec fn tbl3(pool: PagePool, root: u64, p: u64) -> Option<u64> {
    child(pool, root, l4_idx(p))
}

/// The level-2 table on the walk of page number `p`.
pub open spec fn tbl2(pool: PagePool, root: u64, p: u64) -> Option<u64> {
    match tbl3(pool, root, p) {
        Some(t) => child(pool, t, l3_idx(p)),
        None => None,
    }
}

/// The level-1 (leaf) table on the walk of page number `p`.
pub open spec fn tbl1(pool: PagePool, root: u64, p: u64) -> Option<u64> {
    match tbl2(pool, root, p) {
        Some(t) => child(pool, t, l2_idx(p)),
        None => None,
    }
}

/// The guest-physical page that page number `p` translates to, walking
/// all four levels; `None` when any level is absent.
pub open spec fn translate(pool: PagePool, root: u64, p: u64) -> Option<u64> {
    match tbl1(pool, root, p) {
        Some(t) => child(pool, t, l1_idx(p)),
        None => None,
    }
}

/// A table reference is acceptable when it points at a handed-out,
/// not-freed frame other than the root.
pub open spec fn ok_tbl(pool: PagePool, root: u64, x: Option<u64>) -> bool {
    x matches Some(t) ==> (pool.is_table_addr(t) && !pool.is_free(t) && t != root)
}

/// Whether frame `b` is the root or appears on some walk.
pub open spec fn reachable(pool: PagePool, root: u64, b: u64) -> bool {
    ||| b == root
    ||| exists|q: u64| #[trigger] tbl3(pool, root, q) == Some(b)
    ||| exists|q: u64| #[trigger] tbl2(pool, root, q) == Some(b)
    ||| exists|q: u64| #[trigger] tbl1(pool, root, q) == Some(b)
}

/// The structural invariant of a page-table tree rooted at `root`
/// over `pool`'s arena: every table on a walk is a valid, live frame;
/// a table is shared only between walks that agree on all the slots
/// above it; and tables of different levels never coincide.
pub open spec fn pt_inv(pool: PagePool, root: u64) -> bool {
    &&& pool.wf()
    &&& pool.is_table_addr(root)
    &&& !pool.is_free(root)
    &&& (forall|p: u64| ok_tbl(pool, root, #[trigger] tbl3(pool, root, p)))
    &&& (forall|p: u64| ok_tbl(pool, root, #[trigger] tbl2(pool, root, p)))
    &&& (forall|p: u64| ok_tbl(pool, root, #[trigger] tbl1(pool, root, p)))
    &&& (forall|p: u64, q: u64|
        #![trigger tbl3(pool, root, p), tbl3(pool, root, q)]
        (tbl3(pool, root, p) is Some && tbl3(pool, root, p) == tbl3(pool, root, q)) ==> l4_idx(p)
            == l4_idx(q))
    &&& (forall|p: u64, q: u64|
        #![trigger tbl2(pool, root, p), tbl2(pool, root, q)]
        (tbl2(pool, root, p) is Some && tbl2(pool, root, p) == tbl2(pool, root, q)) ==> (l4_idx(p)
            == l4_idx(q) && l3_idx(p) == l3_idx(q)))
    &&& (forall|p: u64, q: u64|
        #![trigger tbl1(pool, root, p), tbl1(pool, root, q)]
        (tbl1(pool, root, p) is Some && tbl1(pool, root, p) == tbl1(pool, root, q)) ==> (l4_idx(p)
            == l4_idx(q) && l3_idx(p) == l3_idx(q) && l2_idx(p) == l2_idx(q)))
    &&& (forall|p: u64, q: u64|
        #![trigger tbl3(pool, root, p), tbl2(pool, root, q)]
        !(tbl3(pool, root, p) is Some && tbl3(pool, root, p) == tbl2(pool, root, q)))
    &&& (forall|p: u64, q: u64|
        #![trigger tbl3(pool, root, p), tbl1(pool, root, q)]
        !(tbl3(pool, root, p) is Some && tbl3(pool, root, p) == tbl1(pool, root, q)))
    &&& (forall|p: u64, q: u64|
        #![trigger tbl2(pool, root, p), tbl1(pool, root, q)]
        !(tbl2(pool, root, p) is Some && tbl2(pool, root, p) == tbl1(pool, root, q)))
}

/// The pool fields the walk depends on besides the arena contents.
pub open spec fn pool_meta_eq(pre: PagePool, post: PagePool) -> bool {
    &&& post.baseAddr == pre.baseAddr
    &&& post.next == pre.next
    &&& post.pageCount == pre.pageCount
    &&& post.freePool@ == pre.freePool@
}

/// All entries agree between the two states except the one at `(a, s)`.
pub open spec fn entries_except(pre: PagePool, post: PagePool, a: u64, s: int) -> bool {
    forall|b: u64, t: int| !(b == a && t == s) ==> post.entry(b, t) == pre.entry(b, t)
}

/// Two canonical page numbers with the same four slot indices are the
/// same page number.
proof fn lemma_vpn_index_injective(p: u64, q: u64)
    by (bit_vector)
    requires
        p < 0x8_0000_0000 || (0xf_fff8_0000_0000 <= p && p < 0x10_0000_0000_0000),
        q < 0x8_0000_0000 || (0xf_fff8_0000_0000 <= q && q < 0x10_0000_0000_0000),
        ((p >> 27) & 0x1ff) == ((q >> 27) & 0x1ff),
        ((p >> 18) & 0x1ff) == ((q >> 18) & 0x1ff),
        ((p >> 9) & 0x1ff) == ((q >> 9) & 0x1ff),
        (p & 0x1ff) == (q & 0x1ff),
    ensures
        p == q,
{
}

/// A page-aligned physical address below the ceiling survives the
/// entry encoding: OR-ing the default flags in keeps it nonzero and
/// the address mask recovers it exactly.
proof fn lemma_entry_encode(a: u64)
    by (bit_vector)
    requires
        a % 0x1000 == 0,
        a < 0x10_0000_0000_0000,
    ensures
        (a | 7u64) != 0,
        ((a | 7u64) & 0xf_ffff_ffff_f000) == a,
{
}

/// The four slot indices are always below 512.
proof fn lemma_idx_bounds(p: u64)
    by (bit_vector)
    ensures
        ((p >> 27) & 0x1ff) < 512,
        ((p >> 18) & 0x1ff) < 512,
        ((p >> 9) & 0x1ff) < 512,
        (p & 0x1ff) < 512,
{
}

/// A pool change that leaves every reachable frame's entries alone
/// (allocating a fresh frame, zeroing an unreachable one) moves no
/// walk and preserves the tree invariant.
proof fn lemma_untouched_preserves(pre: PagePool, post: PagePool, root: u64)
    requires
        pt_inv(pre, root),
        post.wf(),
        post.baseAddr == pre.baseAddr,
        post.next >= pre.next,
        post.pageCount == pre.pageCount,
        !post.is_free(root),
        forall|b: u64, t: int|
            reachable(pre, root, b) ==> post.entry(b, t) == (#[trigger] pre.entry(b, t)),
        forall|b: u64| pre.is_table_addr(b) && !(#[trigger] pre.is_free(b)) ==> !post.is_free(b),
    ensures
        forall|q: u64| #[trigger] tbl3(post, root, q) == tbl3(pre, root, q),
        forall|q: u64| #[trigger] tbl2(post, root, q) == tbl2(pre, root, q),
        forall|q: u64| #[trigger] tbl1(post, root, q) == tbl1(pre, root, q),
        forall|q: u64| #[trigger] translate(post, root, q) == translate(pre, root, q),
        pt_inv(post, root),
{
    assert forall|b: u64| pre.is_table_addr(b) implies post.is_table_addr(b) by {
        assert(pre.next * PAGE_SIZE_4K <= post.next * PAGE_SIZE_4K) by (nonlinear_arith)
            requires
                pre.next <= post.next,
                pre.baseAddr == post.baseAddr,
        ;
    }
    assert(reachable(pre, root, root));
    assert forall|q: u64| #[trigger] tbl3(post, root, q) == tbl3(pre, root, q) by {
        assert(post.entry(root, l4_idx(q)) == pre.entry(root, l4_idx(q)));
    }
    assert forall|q: u64| #[trigger] tbl2(post, root, q) == tbl2(pre, root, q) by {
        if tbl3(pre, root, q) is Some {
            let t = tbl3(pre, root, q).unwrap();
            assert(reachable(pre, root, t));
            assert(post.entry(t, l3_idx(q)) == pre.entry(t, l3_idx(q)));
        }
    }
    assert forall|q: u64| #[trigger] tbl1(post, root, q) == tbl1(pre, root, q) by {
        if tbl2(pre, root, q) is Some {
            let t = tbl2(pre, root, q).unwrap();
            assert(reachable(pre, root, t));
            assert(post.entry(t, l2_idx(q)) == pre.entry(t, l2_idx(q)));
        }
    }
    assert forall|q: u64| #[trigger] translate(post, root, q) == translate(pre, root, q) by {
        if tbl1(pre, root, q) is Some {
            let t = tbl1(pre, root, q).unwrap();
            assert(reachable(pre, root, t));
            assert(post.entry(t, l1_idx(q)) == pre.entry(t, l1_idx(q)));
        }
    }
    assert forall|p: u64| ok_tbl(post, root, #[trigger] tbl3(post, root, p)) by {
        assert(ok_tbl(pre, root, tbl3(pre, root, p)));
    }
    assert forall|p: u64| ok_tbl(post, root, #[trigger] tbl2(post, root, p)) by {
        assert(ok_tbl(pre, root, tbl2(pre, root, p)));
    }
    assert forall|p: u64| ok_tbl(post, root, #[trigger] tbl1(post, root, p)) by {
        assert(ok_tbl(pre, root, tbl1(pre, root, p)));
    }
}


/// Linking a fresh zeroed table `nt` into an empty slot of the root
/// creates the level-3 table for exactly the walks sharing `p`'s top
/// slot, and moves no translation.
proof fn lemma_link4(pre: PagePool, post: PagePool, root: u64, p: u64, nt: u64)
    requires
        pt_inv(pre, root),
        tbl3(pre, root, p) is None,
        post.wf(),
        pool_meta_eq(pre, post),
        entries_except(pre, post, root, l4_idx(p)),
        post.entry(root, l4_idx(p)) != 0,
        post.entry(root, l4_idx(p)) & PTE_ADDR_MASK == nt,
        post.is_table_addr(nt),
        !post.is_free(nt),
        nt != root,
        forall|t: int| (#[trigger] post.entry(nt, t)) == 0,
        forall|q: u64| (#[trigger] tbl3(pre, root, q)) != Some(nt),
        forall|q: u64| (#[trigger] tbl2(pre, root, q)) != Some(nt),
        forall|q: u64| (#[trigger] tbl1(pre, root, q)) != Some(nt),
    ensures
        pt_inv(post, root),
        forall|q: u64| l4_idx(q) == l4_idx(p) ==> (#[trigger] tbl3(post, root, q)) == Some(nt),
        forall|q: u64| l4_idx(q) != l4_idx(p) ==> (#[trigger] tbl3(post, root, q)) == tbl3(
            pre,
            root,
            q,
        ),
        forall|q: u64| (#[trigger] tbl2(post, root, q)) == tbl2(pre, root, q),
        forall|q: u64| (#[trigger] tbl1(post, root, q)) == tbl1(pre, root, q),
        forall|q: u64| (#[trigger] translate(post, root, q)) == translate(pre, root, q),
{
    assert forall|q: u64| (#[trigger] tbl2(post, root, q)) == tbl2(pre, root, q) by {
        if l4_idx(q) == l4_idx(p) {
            assert(post.entry(nt, l3_idx(q)) == 0);
        } else {
            if tbl3(pre, root, q) is Some {
                let u = tbl3(pre, root, q).unwrap();
                assert(ok_tbl(pre, root, tbl3(pre, root, q)));
                assert(post.entry(u, l3_idx(q)) == pre.entry(u, l3_idx(q)));
            }
        }
    }
    assert forall|q: u64| (#[trigger] tbl1(post, root, q)) == tbl1(pre, root, q) by {
        if tbl2(pre, root, q) is Some {
            let u = tbl2(pre, root, q).unwrap();
            assert(ok_tbl(pre, root, tbl2(pre, root, q)));
            assert(post.entry(u, l2_idx(q)) == pre.entry(u, l2_idx(q)));
        }
    }
    assert forall|q: u64| (#[trigger] translate(post, root, q)) == translate(pre, root, q) by {
        if tbl1(pre, root, q) is Some {
            let u = tbl1(pre, root, q).unwrap();
            assert(ok_tbl(pre, root, tbl1(pre, root, q)));
            assert(post.entry(u, l1_idx(q)) == pre.entry(u, l1_idx(q)));
        } else {
            if l4_idx(q) == l4_idx(p) {
                assert(post.entry(nt, l3_idx(q)) == 0);
            }
        }
    }
    assert forall|q: u64| ok_tbl(post, root, #[trigger] tbl3(post, root, q)) by {
        if l4_idx(q) != l4_idx(p) {
            assert(ok_tbl(pre, root, tbl3(pre, root, q)));
        }
    }
    assert forall|q: u64| ok_tbl(post, root, #[trigger] tbl2(post, root, q)) by {
        assert(ok_tbl(pre, root, tbl2(pre, root, q)));
    }
    assert forall|q: u64| ok_tbl(post, root, #[trigger] tbl1(post, root, q)) by {
        assert(ok_tbl(pre, root, tbl1(pre, root, q)));
    }
    assert forall|p1: u64, q1: u64|
        #![trigger tbl3(post, root, p1), tbl3(post, root, q1)]
        (tbl3(post, root, p1) is Some && tbl3(post, root, p1) == tbl3(post, root, q1)) implies l4_idx(
        p1,
    ) == l4_idx(q1) by {
        if l4_idx(p1) == l4_idx(p) && l4_idx(q1) != l4_idx(p) {
            assert(tbl3(post, root, q1) == tbl3(pre, root, q1));
            assert(tbl3(pre, root, q1) != Some(nt));
        }
        if l4_idx(p1) != l4_idx(p) && l4_idx(q1) == l4_idx(p) {
            assert(tbl3(post, root, p1) == tbl3(pre, root, p1));
            assert(tbl3(pre, root, p1) != Some(nt));
        }
    }
    assert forall|p1: u64, q1: u64|
        #![trigger tbl3(post, root, p1), tbl2(post, root, q1)]
        !(tbl3(post, root, p1) is Some && tbl3(post, root, p1) == tbl2(post, root, q1)) by {
        assert(tbl2(post, root, q1) == tbl2(pre, root, q1));
        if l4_idx(p1) != l4_idx(p) {
            assert(tbl3(post, root, p1) == tbl3(pre, root, p1));
        } else {
            assert(tbl2(pre, root, q1) != Some(nt));
        }
    }
    assert forall|p1: u64, q1: u64|
        #![trigger tbl3(post, root, p1), tbl1(post, root, q1)]
        !(tbl3(post, root, p1) is Some && tbl3(post, root, p1) == tbl1(post, root, q1)) by {
        assert(tbl1(post, root, q1) == tbl1(pre, root, q1));
        if l4_idx(p1) != l4_idx(p) {
            assert(tbl3(post, root, p1) == tbl3(pre, root, p1));
        } else {
            assert(tbl1(pre, root, q1) != Some(nt));
        }
    }
    assert forall|p1: u64, q1: u64|
        #![trigger tbl2(post, root, p1), tbl2(post, root, q1)]
        (tbl2(post, root, p1) is Some && tbl2(post, root, p1) == tbl2(post, root, q1)) implies (
    l4_idx(p1) == l4_idx(q1) && l3_idx(p1) == l3_idx(q1)) by {
        assert(tbl2(post, root, p1) == tbl2(pre, root, p1));
        assert(tbl2(post, root, q1) == tbl2(pre, root, q1));
    }
    assert forall|p1: u64, q1: u64|
        #![trigger tbl1(post, root, p1), tbl1(post, root, q1)]
        (tbl1(post, root, p1) is Some && tbl1(post, root, p1) == tbl1(post, root, q1)) implies (
    l4_idx(p1) == l4_idx(q1) && l3_idx(p1) == l3_idx(q1) && l2_idx(p1) == l2_idx(q1)) by {
        assert(tbl1(post, root, p1) == tbl1(pre, root, p1));
        assert(tbl1(post, root, q1) == tbl1(pre, root, q1));
    }
    assert forall|p1: u64, q1: u64|
        #![trigger tbl2(post, root, p1), tbl1(post, root, q1)]
        !(tbl2(post, root, p1) is Some && tbl2(post, root, p1) == tbl1(post, root, q1)) by {
        assert(tbl2(post, root, p1) == tbl2(pre, root, p1));
        assert(tbl1(post, root, q1) == tbl1(pre, root, q1));
    }
}


/// Linking a fresh zeroed table `nt` into an empty slot of `p`'s
/// level-3 table creates the level-2 table for exactly the walks
/// sharing `p`'s two top slots, and moves no translation.
proof fn lemma_link3(pre: PagePool, post: PagePool, root: u64, p: u64, t3: u64, nt: u64)
    requires
        pt_inv(pre, root),
        tbl3(pre, root, p) == Some(t3),
        tbl2(pre, root, p) is None,
        post.wf(),
        pool_meta_eq(pre, post),
        entries_except(pre, post, t3, l3_idx(p)),
        post.entry(t3, l3_idx(p)) != 0,
        post.entry(t3, l3_idx(p)) & PTE_ADDR_MASK == nt,
        post.is_table_addr(nt),
        !post.is_free(nt),
        nt != root,
        forall|t: int| (#[trigger] post.entry(nt, t)) == 0,
        forall|q: u64| (#[trigger] tbl3(pre, root, q)) != Some(nt),
        forall|q: u64| (#[trigger] tbl2(pre, root, q)) != Some(nt),
        forall|q: u64| (#[trigger] tbl1(pre, root, q)) != Some(nt),
    ensures
        pt_inv(post, root),
        forall|q: u64| (#[trigger] tbl3(post, root, q)) == tbl3(pre, root, q),
        forall|q: u64|
            (l4_idx(q) == l4_idx(p) && l3_idx(q) == l3_idx(p)) ==> (#[trigger] tbl2(post, root, q))
                == Some(nt),
        forall|q: u64|
            !(l4_idx(q) == l4_idx(p) && l3_idx(q) == l3_idx(p)) ==> (#[trigger] tbl2(
                post,
                root,
                q,
            )) == tbl2(pre, root, q),
        forall|q: u64| (#[trigger] tbl1(post, root, q)) == tbl1(pre, root, q),
        forall|q: u64| (#[trigger] translate(post, root, q)) == translate(pre, root, q),
{
    assert(ok_tbl(pre, root, tbl3(pre, root, p)));
    assert forall|q: u64| (#[trigger] tbl3(post, root, q)) == tbl3(pre, root, q) by {
        assert(post.entry(root, l4_idx(q)) == pre.entry(root, l4_idx(q)));
    }
    assert forall|q: u64|
        (l4_idx(q) == l4_idx(p) && l3_idx(q) == l3_idx(p)) implies (#[trigger] tbl2(post, root, q))
        == Some(nt) by {
        assert(tbl3(pre, root, q) == tbl3(pre, root, p));
    }
    assert forall|q: u64|
        !(l4_idx(q) == l4_idx(p) && l3_idx(q) == l3_idx(p)) implies (#[trigger] tbl2(post, root, q))
        == tbl2(pre, root, q) by {
        if tbl3(pre, root, q) is Some {
            let u = tbl3(pre, root, q).unwrap();
            assert(ok_tbl(pre, root, tbl3(pre, root, q)));
            if u == t3 {
                assert(l4_idx(q) == l4_idx(p));
                assert(l3_idx(q) != l3_idx(p));
                assert(post.entry(u, l3_idx(q)) == pre.entry(u, l3_idx(q)));
            } else {
                assert(post.entry(u, l3_idx(q)) == pre.entry(u, l3_idx(q)));
            }
        }
    }
    assert forall|q: u64| (#[trigger] tbl1(post, root, q)) == tbl1(pre, root, q) by {
        if l4_idx(q) == l4_idx(p) && l3_idx(q) == l3_idx(p) {
            assert(tbl2(pre, root, q) == tbl2(pre, root, p));
            assert(post.entry(nt, l2_idx(q)) == 0);
        } else {
            if tbl2(pre, root, q) is Some {
                let u = tbl2(pre, root, q).unwrap();
                assert(ok_tbl(pre, root, tbl2(pre, root, q)));
                assert(!(tbl3(pre, root, p) is Some && tbl3(pre, root, p) == tbl2(pre, root, q)));
                assert(post.entry(u, l2_idx(q)) == pre.entry(u, l2_idx(q)));
            }
        }
    }
    assert forall|q: u64| (#[trigger] translate(post, root, q)) == translate(pre, root, q) by {
        if tbl1(pre, root, q) is Some {
            let u = tbl1(pre, root, q).unwrap();
            assert(ok_tbl(pre, root, tbl1(pre, root, q)));
            assert(!(tbl3(pre, root, p) is Some && tbl3(pre, root, p) == tbl1(pre, root, q)));
            assert(post.entry(u, l1_idx(q)) == pre.entry(u, l1_idx(q)));
        }
    }
    assert forall|q: u64| ok_tbl(post, root, #[trigger] tbl3(post, root, q)) by {
        assert(ok_tbl(pre, root, tbl3(pre, root, q)));
    }
    assert forall|q: u64| ok_tbl(post, root, #[trigger] tbl2(post, root, q)) by {
        if !(l4_idx(q) == l4_idx(p) && l3_idx(q) == l3_idx(p)) {
            assert(ok_tbl(pre, root, tbl2(pre, root, q)));
        }
    }
    assert forall|q: u64| ok_tbl(post, root, #[trigger] tbl1(post, root, q)) by {
        assert(ok_tbl(pre, root, tbl1(pre, root, q)));
    }
    assert forall|p1: u64, q1: u64|
        #![trigger tbl3(post, root, p1), tbl3(post, root, q1)]
        (tbl3(post, root, p1) is Some && tbl3(post, root, p1) == tbl3(post, root, q1)) implies l4_idx(
        p1,
    ) == l4_idx(q1) by {
        assert(tbl3(post, root, p1) == tbl3(pre, root, p1));
        assert(tbl3(post, root, q1) == tbl3(pre, root, q1));
    }
    assert forall|p1: u64, q1: u64|
        #![trigger tbl2(post, root, p1), tbl2(post, root, q1)]
        (tbl2(post, root, p1) is Some && tbl2(post, root, p1) == tbl2(post, root, q1)) implies (
    l4_idx(p1) == l4_idx(q1) && l3_idx(p1) == l3_idx(q1)) by {
        let newp = l4_idx(p1) == l4_idx(p) && l3_idx(p1) == l3_idx(p);
        let newq = l4_idx(q1) == l4_idx(p) && l3_idx(q1) == l3_idx(p);
        if newp && !newq {
            assert(tbl2(post, root, q1) == tbl2(pre, root, q1));
            assert(tbl2(pre, root, q1) != Some(nt));
        }
        if !newp && newq {
            assert(tbl2(post, root, p1) == tbl2(pre, root, p1));
            assert(tbl2(pre, root, p1) != Some(nt));
        }
        if !newp && !newq {
            assert(tbl2(post, root, p1) == tbl2(pre, root, p1));
            assert(tbl2(post, root, q1) == tbl2(pre, root, q1));
        }
    }
    assert forall|p1: u64, q1: u64|
        #![trigger tbl1(post, root, p1), tbl1(post, root, q1)]
        (tbl1(post, root, p1) is Some && tbl1(post, root, p1) == tbl1(post, root, q1)) implies (
    l4_idx(p1) == l4_idx(q1) && l3_idx(p1) == l3_idx(q1) && l2_idx(p1) == l2_idx(q1)) by {
        assert(tbl1(post, root, p1) == tbl1(pre, root, p1));
        assert(tbl1(post, root, q1) == tbl1(pre, root, q1));
    }
    assert forall|p1: u64, q1: u64|
        #![trigger tbl3(post, root, p1), tbl2(post, root, q1)]
        !(tbl3(post, root, p1) is Some && tbl3(post, root, p1) == tbl2(post, root, q1)) by {
        assert(tbl3(post, root, p1) == tbl3(pre, root, p1));
        if l4_idx(q1) == l4_idx(p) && l3_idx(q1) == l3_idx(p) {
            assert(tbl3(pre, root, p1) != Some(nt));
        } else {
            assert(tbl2(post, root, q1) == tbl2(pre, root, q1));
        }
    }
    assert forall|p1: u64, q1: u64|
        #![trigger tbl3(post, root, p1), tbl1(post, root, q1)]
        !(tbl3(post, root, p1) is Some && tbl3(post, root, p1) == tbl1(post, root, q1)) by {
        assert(tbl3(post, root, p1) == tbl3(pre, root, p1));
        assert(tbl1(post, root, q1) == tbl1(pre, root, q1));
    }
    assert forall|p1: u64, q1: u64|
        #![trigger tbl2(post, root, p1), tbl1(post, root, q1)]
        !(tbl2(post, root, p1) is Some && tbl2(post, root, p1) == tbl1(post, root, q1)) by {
        assert(tbl1(post, root, q1) == tbl1(pre, root, q1));
        if l4_idx(p1) == l4_idx(p) && l3_idx(p1) == l3_idx(p) {
            assert(tbl1(pre, root, q1) != Some(nt));
        } else {
            assert(tbl2(post, root, p1) == tbl2(pre, root, p1));
        }
    }
}

/// Linking a fresh zeroed table `nt` into an empty slot of `p`'s
/// level-2 table creates the leaf table for exactly the walks sharing
/// `p`'s three top slots, and moves no translation.
proof fn lemma_link2(pre: PagePool, post: PagePool, root: u64, p: u64, t2: u64, nt: u64)
    requires
        pt_inv(pre, root),
        tbl2(pre, root, p) == Some(t2),
        tbl1(pre, root, p) is None,
        post.wf(),
        pool_meta_eq(pre, post),
        entries_except(pre, post, t2, l2_idx(p)),
        post.entry(t2, l2_idx(p)) != 0,
        post.entry(t2, l2_idx(p)) & PTE_ADDR_MASK == nt,
        post.is_table_addr(nt),
        !post.is_free(nt),
        nt != root,
        forall|t: int| (#[trigger] post.entry(nt, t)) == 0,
        forall|q: u64| (#[trigger] tbl3(pre, root, q)) != Some(nt),
        forall|q: u64| (#[trigger] tbl2(pre, root, q)) != Some(nt),
        forall|q: u64| (#[trigger] tbl1(pre, root, q)) != Some(nt),
    ensures
        pt_inv(post, root),
        forall|q: u64| (#[trigger] tbl3(post, root, q)) == tbl3(pre, root, q),
        forall|q: u64| (#[trigger] tbl2(post, root, q)) == tbl2(pre, root, q),
        forall|q: u64|
            (l4_idx(q) == l4_idx(p) && l3_idx(q) == l3_idx(p) && l2_idx(q) == l2_idx(p)) ==> (
            #[trigger] tbl1(post, root, q)) == Some(nt),
        forall|q: u64|
            !(l4_idx(q) == l4_idx(p) && l3_idx(q) == l3_idx(p) && l2_idx(q) == l2_idx(p)) ==> (
            #[trigger] tbl1(post, root, q)) == tbl1(pre, root, q),
        forall|q: u64| (#[trigger] translate(post, root, q)) == translate(pre, root, q),
{
    assert(ok_tbl(pre, root, tbl2(pre, root, p)));
    assert forall|q: u64| (#[trigger] tbl3(post, root, q)) == tbl3(pre, root, q) by {
        assert(post.entry(root, l4_idx(q)) == pre.entry(root, l4_idx(q)));
    }
    assert forall|q: u64| (#[trigger] tbl2(post, root, q)) == tbl2(pre, root, q) by {
        if tbl3(pre, root, q) is Some {
            let u = tbl3(pre, root, q).unwrap();
            assert(ok_tbl(pre, root, tbl3(pre, root, q)));
            assert(!(tbl3(pre, root, q) is Some && tbl3(pre, root, q) == tbl2(pre, root, p)));
            assert(post.entry(u, l3_idx(q)) == pre.entry(u, l3_idx(q)));
        }
    }
    assert forall|q: u64|
        (l4_idx(q) == l4_idx(p) && l3_idx(q) == l3_idx(p) && l2_idx(q) == l2_idx(p)) implies (
    #[trigger] tbl1(post, root, q)) == Some(nt) by {
        assert(tbl3(pre, root, q) == tbl3(pre, root, p));
        assert(tbl2(pre, root, q) == tbl2(pre, root, p));
    }
    assert forall|q: u64|
        !(l4_idx(q) == l4_idx(p) && l3_idx(q) == l3_idx(p) && l2_idx(q) == l2_idx(p)) implies (
    #[trigger] tbl1(post, root, q)) == tbl1(pre, root, q) by {
        if tbl2(pre, root, q) is Some {
            let u = tbl2(pre, root, q).unwrap();
            assert(ok_tbl(pre, root, tbl2(pre, root, q)));
            if u == t2 {
                assert(l4_idx(q) == l4_idx(p) && l3_idx(q) == l3_idx(p));
                assert(l2_idx(q) != l2_idx(p));
                assert(post.entry(u, l2_idx(q)) == pre.entry(u, l2_idx(q)));
            } else {
                assert(post.entry(u, l2_idx(q)) == pre.entry(u, l2_idx(q)));
            }
        }
    }
    assert forall|q: u64| (#[trigger] translate(post, root, q)) == translate(pre, root, q) by {
        if l4_idx(q) == l4_idx(p) && l3_idx(q) == l3_idx(p) && l2_idx(q) == l2_idx(p) {
            assert(tbl1(pre, root, q) == tbl1(pre, root, p));
            assert(post.entry(nt, l1_idx(q)) == 0);
        } else {
            if tbl1(pre, root, q) is Some {
                let u = tbl1(pre, root, q).unwrap();
                assert(ok_tbl(pre, root, tbl1(pre, root, q)));
                assert(!(tbl2(pre, root, p) is Some && tbl2(pre, root, p) == tbl1(pre, root, q)));
                assert(post.entry(u, l1_idx(q)) == pre.entry(u, l1_idx(q)));
            }
        }
    }
    assert forall|q: u64| ok_tbl(post, root, #[trigger] tbl3(post, root, q)) by {
        assert(ok_tbl(pre, root, tbl3(pre, root, q)));
    }
    assert forall|q: u64| ok_tbl(post, root, #[trigger] tbl2(post, root, q)) by {
        assert(ok_tbl(pre, root, tbl2(pre, root, q)));
    }
    assert forall|q: u64| ok_tbl(post, root, #[trigger] tbl1(post, root, q)) by {
        if !(l4_idx(q) == l4_idx(p) && l3_idx(q) == l3_idx(p) && l2_idx(q) == l2_idx(p)) {
            assert(ok_tbl(pre, root, tbl1(pre, root, q)));
        }
    }
    assert forall|p1: u64, q1: u64|
        #![trigger tbl3(post, root, p1), tbl3(post, root, q1)]
        (tbl3(post, root, p1) is Some && tbl3(post, root, p1) == tbl3(post, root, q1)) implies l4_idx(
        p1,
    ) == l4_idx(q1) by {
        assert(tbl3(post, root, p1) == tbl3(pre, root, p1));
        assert(tbl3(post, root, q1) == tbl3(pre, root, q1));
    }
    assert forall|p1: u64, q1: u64|
        #![trigger tbl2(post, root, p1), tbl2(post, root, q1)]
        (tbl2(post, root, p1) is Some && tbl2(post, root, p1) == tbl2(post, root, q1)) implies (
    l4_idx(p1) == l4_idx(q1) && l3_idx(p1) == l3_idx(q1)) by {
        assert(tbl2(post, root, p1) == tbl2(pre, root, p1));
        assert(tbl2(post, root, q1) == tbl2(pre, root, q1));
    }
    assert forall|p1: u64, q1: u64|
        #![trigger tbl1(post, root, p1), tbl1(post, root, q1)]
        (tbl1(post, root, p1) is Some && tbl1(post, root, p1) == tbl1(post, root, q1)) implies (
    l4_idx(p1) == l4_idx(q1) && l3_idx(p1) == l3_idx(q1) && l2_idx(p1) == l2_idx(q1)) by {
        let newp = l4_idx(p1) == l4_idx(p) && l3_idx(p1) == l3_idx(p) && l2_idx(p1) == l2_idx(p);
        let newq = l4_idx(q1) == l4_idx(p) && l3_idx(q1) == l3_idx(p) && l2_idx(q1) == l2_idx(p);
        if newp && !newq {
            assert(tbl1(post, root, q1) == tbl1(pre, root, q1));
            assert(tbl1(pre, root, q1) != Some(nt));
        }
        if !newp && newq {
            assert(tbl1(post, root, p1) == tbl1(pre, root, p1));
            assert(tbl1(pre, root, p1) != Some(nt));
        }
        if !newp && !newq {
            assert(tbl1(post, root, p1) == tbl1(pre, root, p1));
            assert(tbl1(post, root, q1) == tbl1(pre, root, q1));
        }
    }
    assert forall|p1: u64, q1: u64|
        #![trigger tbl3(post, root, p1), tbl2(post, root, q1)]
        !(tbl3(post, root, p1) is Some && tbl3(post, root, p1) == tbl2(post, root, q1)) by {
        assert(tbl3(post, root, p1) == tbl3(pre, root, p1));
        assert(tbl2(post, root, q1) == tbl2(pre, root, q1));
    }
    assert forall|p1: u64, q1: u64|
        #![trigger tbl3(post, root, p1), tbl1(post, root, q1)]
        !(tbl3(post, root, p1) is Some && tbl3(post, root, p1) == tbl1(post, root, q1)) by {
        assert(tbl3(post, root, p1) == tbl3(pre, root, p1));
        if l4_idx(q1) == l4_idx(p) && l3_idx(q1) == l3_idx(p) && l2_idx(q1) == l2_idx(p) {
            assert(tbl3(pre, root, p1) != Some(nt));
        } else {
            assert(tbl1(post, root, q1) == tbl1(pre, root, q1));
        }
    }
    assert forall|p1: u64, q1: u64|
        #![trigger tbl2(post, root, p1), tbl1(post, root, q1)]
        !(tbl2(post, root, p1) is Some && tbl2(post, root, p1) == tbl1(post, root, q1)) by {
        assert(tbl2(post, root, p1) == tbl2(pre, root, p1));
        if l4_idx(q1) == l4_idx(p) && l3_idx(q1) == l3_idx(p) && l2_idx(q1) == l2_idx(p) {
            assert(tbl2(pre, root, p1) != Some(nt));
        } else {
            assert(tbl1(post, root, q1) == tbl1(pre, root, q1));
        }
    }
}

/// Writing a nonzero value into an empty slot of `p`'s leaf table
/// installs the translation for exactly the page numbers sharing all
/// four of `p`'s slots, and moves no other translation.
proof fn lemma_set_leaf(pre: PagePool, post: PagePool, root: u64, p: u64, t1: u64, val: u64)
    requires
        pt_inv(pre, root),
        tbl1(pre, root, p) == Some(t1),
        pre.entry(t1, l1_idx(p)) == 0,
        post.wf(),
        pool_meta_eq(pre, post),
        entries_except(pre, post, t1, l1_idx(p)),
        post.entry(t1, l1_idx(p)) == val,
        val != 0,
    ensures
        pt_inv(post, root),
        forall|q: u64| (#[trigger] tbl3(post, root, q)) == tbl3(pre, root, q),
        forall|q: u64| (#[trigger] tbl2(post, root, q)) == tbl2(pre, root, q),
        forall|q: u64| (#[trigger] tbl1(post, root, q)) == tbl1(pre, root, q),
        forall|q: u64|
            (l4_idx(q) == l4_idx(p) && l3_idx(q) == l3_idx(p) && l2_idx(q) == l2_idx(p) && l1_idx(
                q,
            ) == l1_idx(p)) ==> (#[trigger] translate(post, root, q)) == Some(val & PTE_ADDR_MASK),
        forall|q: u64|
            !(l4_idx(q) == l4_idx(p) && l3_idx(q) == l3_idx(p) && l2_idx(q) == l2_idx(p) && l1_idx(
                q,
            ) == l1_idx(p)) ==> (#[trigger] translate(post, root, q)) == translate(pre, root, q),
{
    assert(ok_tbl(pre, root, tbl1(pre, root, p)));
    assert forall|q: u64| (#[trigger] tbl3(post, root, q)) == tbl3(pre, root, q) by {
        assert(post.entry(root, l4_idx(q)) == pre.entry(root, l4_idx(q)));
    }
    assert forall|q: u64| (#[trigger] tbl2(post, root, q)) == tbl2(pre, root, q) by {
        if tbl3(pre, root, q) is Some {
            let u = tbl3(pre, root, q).unwrap();
            assert(ok_tbl(pre, root, tbl3(pre, root, q)));
            assert(!(tbl3(pre, root, q) is Some && tbl3(pre, root, q) == tbl1(pre, root, p)));
            assert(post.entry(u, l3_idx(q)) == pre.entry(u, l3_idx(q)));
        }
    }
    assert forall|q: u64| (#[trigger] tbl1(post, root, q)) == tbl1(pre, root, q) by {
        if tbl2(pre, root, q) is Some {
            let u = tbl2(pre, root, q).unwrap();
            assert(ok_tbl(pre, root, tbl2(pre, root, q)));
            assert(!(tbl2(pre, root, q) is Some && tbl2(pre, root, q) == tbl1(pre, root, p)));
            assert(post.entry(u, l2_idx(q)) == pre.entry(u, l2_idx(q)));
        }
    }
    assert forall|q: u64|
        (l4_idx(q) == l4_idx(p) && l3_idx(q) == l3_idx(p) && l2_idx(q) == l2_idx(p) && l1_idx(q)
            == l1_idx(p)) implies (#[trigger] translate(post, root, q)) == Some(
        val & PTE_ADDR_MASK,
    ) by {
        assert(tbl3(pre, root, q) == tbl3(pre, root, p));
        assert(tbl2(pre, root, q) == tbl2(pre, root, p));
        assert(tbl1(pre, root, q) == tbl1(pre, root, p));
        assert(tbl1(post, root, q) == Some(t1));
        assert(post.entry(t1, l1_idx(q)) == val);
    }
    assert forall|q: u64|
        !(l4_idx(q) == l4_idx(p) && l3_idx(q) == l3_idx(p) && l2_idx(q) == l2_idx(p) && l1_idx(q)
            == l1_idx(p)) implies (#[trigger] translate(post, root, q)) == translate(
        pre,
        root,
        q,
    ) by {
        if tbl1(pre, root, q) is Some {
            let u = tbl1(pre, root, q).unwrap();
            assert(ok_tbl(pre, root, tbl1(pre, root, q)));
            if u == t1 {
                assert(l4_idx(q) == l4_idx(p) && l3_idx(q) == l3_idx(p) && l2_idx(q) == l2_idx(p));
                assert(l1_idx(q) != l1_idx(p));
                assert(post.entry(u, l1_idx(q)) == pre.entry(u, l1_idx(q)));
            } else {
                assert(post.entry(u, l1_idx(q)) == pre.entry(u, l1_idx(q)));
            }
        }
    }
    assert forall|q: u64| ok_tbl(post, root, #[trigger] tbl3(post, root, q)) by {
        assert(ok_tbl(pre, root, tbl3(pre, root, q)));
    }
    assert forall|q: u64| ok_tbl(post, root, #[trigger] tbl2(post, root, q)) by {
        assert(ok_tbl(pre, root, tbl2(pre, root, q)));
    }
    assert forall|q: u64| ok_tbl(post, root, #[trigger] tbl1(post, root, q)) by {
        assert(ok_tbl(pre, root, tbl1(pre, root, q)));
    }
    assert forall|p1: u64, q1: u64|
        #![trigger tbl3(post, root, p1), tbl3(post, root, q1)]
        (tbl3(post, root, p1) is Some && tbl3(post, root, p1) == tbl3(post, root, q1)) implies l4_idx(
        p1,
    ) == l4_idx(q1) by {
        assert(tbl3(post, root, p1) == tbl3(pre, root, p1));
        assert(tbl3(post, root, q1) == tbl3(pre, root, q1));
    }
    assert forall|p1: u64, q1: u64|
        #![trigger tbl2(post, root, p1), tbl2(post, root, q1)]
        (tbl2(post, root, p1) is Some && tbl2(post, root, p1) == tbl2(post, root, q1)) implies (
    l4_idx(p1) == l4_idx(q1) && l3_idx(p1) == l3_idx(q1)) by {
        assert(tbl2(post, root, p1) == tbl2(pre, root, p1));
        assert(tbl2(post, root, q1) == tbl2(pre, root, q1));
    }
    assert forall|p1: u64, q1: u64|
        #![trigger tbl1(post, root, p1), tbl1(post, root, q1)]
        (tbl1(post, root, p1) is Some && tbl1(post, root, p1) == tbl1(post, root, q1)) implies (
    l4_idx(p1) == l4_idx(q1) && l3_idx(p1) == l3_idx(q1) && l2_idx(p1) == l2_idx(q1)) by {
        assert(tbl1(post, root, p1) == tbl1(pre, root, p1));
        assert(tbl1(post, root, q1) == tbl1(pre, root, q1));
    }
    assert forall|p1: u64, q1: u64|
        #![trigger tbl3(post, root, p1), tbl2(post, root, q1)]
        !(tbl3(post, root, p1) is Some && tbl3(post, root, p1) == tbl2(post, root, q1)) by {
        assert(tbl3(post, root, p1) == tbl3(pre, root, p1));
        assert(tbl2(post, root, q1) == tbl2(pre, root, q1));
    }
    assert forall|p1: u64, q1: u64|
        #![trigger tbl3(post, root, p1), tbl1(post, root, q1)]
        !(tbl3(post, root, p1) is Some && tbl3(post, root, p1) == tbl1(post, root, q1)) by {
        assert(tbl3(post, root, p1) == tbl3(pre, root, p1));
        assert(tbl1(post, root, q1) == tbl1(pre, root, q1));
    }
    assert forall|p1: u64, q1: u64|
        #![trigger tbl2(post, root, p1), tbl1(post, root, q1)]
        !(tbl2(post, root, p1) is Some && tbl2(post, root, p1) == tbl1(post, root, q1)) by {
        assert(tbl2(post, root, p1) == tbl2(pre, root, p1));
        assert(tbl1(post, root, q1) == tbl1(pre, root, q1));
    }
}


/// An element of a strict prefix survives dropping the last element.
proof fn lemma_drop_last_contains(s: Seq<u32>, x: u32)
    requires
        s.len() > 0,
        s.drop_last().contains(x),
    ensures
        s.contains(x),
{
    let i = choose|i: int| 0 <= i < s.drop_last().len() && s.drop_last()[i] == x;
    assert(s[i] == x);
}

/// Every frame on a walk is a handed-out, not-freed frame.
proof fn lemma_reachable_valid(pool: PagePool, root: u64, b: u64)
    requires
        pt_inv(pool, root),
        reachable(pool, root, b),
    ensures
        pool.is_table_addr(b),
        !pool.is_free(b),
{
    if b != root {
        if exists|q: u64| #[trigger] tbl3(pool, root, q) == Some(b) {
            let q = choose|q: u64| #[trigger] tbl3(pool, root, q) == Some(b);
            assert(ok_tbl(pool, root, tbl3(pool, root, q)));
        } else if exists|q: u64| #[trigger] tbl2(pool, root, q) == Some(b) {
            let q = choose|q: u64| #[trigger] tbl2(pool, root, q) == Some(b);
            assert(ok_tbl(pool, root, tbl2(pool, root, q)));
        } else {
            let q = choose|q: u64| #[trigger] tbl1(pool, root, q) == Some(b);
            assert(ok_tbl(pool, root, tbl1(pool, root, q)));
        }
    }
}

/// Draws a page from the pool and clears it, leaving every walk of the
/// tree rooted at `root` unchanged; the page handed back is outside
/// that tree.
fn alloc_zeroed(pool: &mut PagePool, Ghost(root): Ghost<u64>) -> (r: Result<u64, Error>)
    requires
        pt_inv(*old(pool), root),
    ensures
        pt_inv(*final(pool), root),
        final(pool).baseAddr == old(pool).baseAddr,
        final(pool).pageCount == old(pool).pageCount,
        final(pool).next >= old(pool).next,
        forall|q: u64| (#[trigger] tbl3(*final(pool), root, q)) == tbl3(*old(pool), root, q),
        forall|q: u64| (#[trigger] tbl2(*final(pool), root, q)) == tbl2(*old(pool), root, q),
        forall|q: u64| (#[trigger] tbl1(*final(pool), root, q)) == tbl1(*old(pool), root, q),
        forall|q: u64| (#[trigger] translate(*final(pool), root, q)) == translate(
            *old(pool),
            root,
            q,
        ),
        match r {
            Ok(n) => {
                &&& final(pool).is_table_addr(n)
                &&& !final(pool).is_free(n)
                &&& n != root
                &&& (forall|t: int| (#[trigger] final(pool).entry(n, t)) == 0)
                &&& (forall|q: u64| (#[trigger] tbl3(*final(pool), root, q)) != Some(n))
                &&& (forall|q: u64| (#[trigger] tbl2(*final(pool), root, q)) != Some(n))
                &&& (forall|q: u64| (#[trigger] tbl1(*final(pool), root, q)) != Some(n))
            },
            Err(e) => {
                &&& e is NoEnoughMemory
                &&& *final(pool) == *old(pool)
                &&& final(pool).freePool@.len() == 0
                &&& final(pool).next == final(pool).pageCount
            },
        },
{
    let ghost g0 = *pool;
    let n = match pool.Allocate() {
        Ok(a) => a.0,
        Err(e) => {
            return Err(e);
        },
    };
    proof {
        if g0.freePool@.len() > 0 {
            lemma_page_addr_props(g0.baseAddr.0, g0.freePool@.last() as int, g0.next as int);
            assert(g0.freePool@.contains(g0.freePool@.last()));
            assert(g0.is_free(n));
        } else {
            assert(!g0.is_table_addr(n));
        }
        if reachable(g0, root, n) {
            lemma_reachable_valid(g0, root, n);
            assert(false);
        }
        assert(!pool.is_free(root)) by {
            if g0.freePool@.len() > 0 && pool.is_free(root) {
                lemma_drop_last_contains(g0.freePool@, (g0.frame_idx(root)) as u32);
            }
        }
        assert forall|b: u64| g0.is_table_addr(b) && !(#[trigger] g0.is_free(b)) implies !pool.is_free(
            b,
        ) by {
            if g0.freePool@.len() > 0 && pool.is_free(b) {
                lemma_drop_last_contains(g0.freePool@, (g0.frame_idx(b)) as u32);
            }
        }
        assert forall|b: u64, t: int|
            reachable(g0, root, b) implies pool.entry(b, t) == (#[trigger] g0.entry(b, t)) by {
            lemma_reachable_valid(g0, root, b);
        }
        lemma_untouched_preserves(g0, *pool, root);
        assert forall|q: u64| (#[trigger] tbl3(*pool, root, q)) != Some(n) by {
            if tbl3(*pool, root, q) == Some(n) {
                assert(tbl3(g0, root, q) == Some(n));
                assert(reachable(g0, root, n));
            }
        }
        assert forall|q: u64| (#[trigger] tbl2(*pool, root, q)) != Some(n) by {
            if tbl2(*pool, root, q) == Some(n) {
                assert(tbl2(g0, root, q) == Some(n));
                assert(reachable(g0, root, n));
            }
        }
        assert forall|q: u64| (#[trigger] tbl1(*pool, root, q)) != Some(n) by {
            if tbl1(*pool, root, q) == Some(n) {
                assert(tbl1(g0, root, q) == Some(n));
                assert(reachable(g0, root, n));
            }
        }
    }
    let ghost g1 = *pool;
    pool.zero_frame(n);
    proof {
        assert forall|b: u64, t: int|
            reachable(g1, root, b) implies pool.entry(b, t) == (#[trigger] g1.entry(b, t)) by {
            if b == n {
                assert(reachable(g1, root, n));
                if n == root {
                    assert(false);
                } else if exists|q: u64| #[trigger] tbl3(g1, root, q) == Some(n) {
                    let q = choose|q: u64| #[trigger] tbl3(g1, root, q) == Some(n);
                    assert(false);
                } else if exists|q: u64| #[trigger] tbl2(g1, root, q) == Some(n) {
                    let q = choose|q: u64| #[trigger] tbl2(g1, root, q) == Some(n);
                    assert(false);
                } else {
                    let q = choose|q: u64| #[trigger] tbl1(g1, root, q) == Some(n);
                    assert(false);
                }
            }
        }
        lemma_untouched_preserves(g1, *pool, root);
        assert forall|q: u64| (#[trigger] tbl3(*pool, root, q)) != Some(n) by {
            assert(tbl3(*pool, root, q) == tbl3(g1, root, q));
        }
        assert forall|q: u64| (#[trigger] tbl2(*pool, root, q)) != Some(n) by {
            assert(tbl2(*pool, root, q) == tbl2(g1, root, q));
        }
        assert forall|q: u64| (#[trigger] tbl1(*pool, root, q)) != Some(n) by {
            assert(tbl1(*pool, root, q) == tbl1(g1, root, q));
        }
        assert forall|q: u64| (#[trigger] tbl3(*pool, root, q)) == tbl3(g0, root, q) by {
            assert(tbl3(*pool, root, q) == tbl3(g1, root, q));
            assert(tbl3(g1, root, q) == tbl3(g0, root, q));
        }
        assert forall|q: u64| (#[trigger] tbl2(*pool, root, q)) == tbl2(g0, root, q) by {
            assert(tbl2(*pool, root, q) == tbl2(g1, root, q));
            assert(tbl2(g1, root, q) == tbl2(g0, root, q));
        }
        assert forall|q: u64| (#[trigger] tbl1(*pool, root, q)) == tbl1(g0, root, q) by {
            assert(tbl1(*pool, root, q) == tbl1(g1, root, q));
            assert(tbl1(g1, root, q) == tbl1(g0, root, q));
        }
        assert forall|q: u64| (#[trigger] translate(*pool, root, q)) == translate(g0, root, q) by {
            assert(translate(*pool, root, q) == translate(g1, root, q));
            assert(translate(g1, root, q) == translate(g0, root, q));
        }
    }
    Ok(n)
}


/// The root of a 4-level radix page table over pages drawn from a
/// `PagePool`.
pub struct PageTables {
    /// Root page guest-physical address.
    pub root: Addr,
}

impl PageTables {
    /// Draws the root page from the pool and clears it, so the new
    /// tree is always a valid, zeroed top-level table that maps
    /// nothing.
    pub fn New(pagePool: &mut PagePool) -> (r: Result<Self, Error>)
        requires
            old(pagePool).wf(),
        ensures
            final(pagePool).wf(),
            final(pagePool).baseAddr == old(pagePool).baseAddr,
            final(pagePool).pageCount == old(pagePool).pageCount,
            match old(pagePool).allocate_result() {
                Some(a) => r matches Ok(pt) && pt.root.0 == a,
                None => r matches Err(e) && e is NoEnoughMemory,
            },
            r matches Err(e) ==> (*final(pagePool) == *old(pagePool)
                && final(pagePool).freePool@.len() == 0
                && final(pagePool).next == final(pagePool).pageCount),
            r matches Ok(pt) ==> ({
                &&& pt_inv(*final(pagePool), pt.root.0)
                &&& (forall|q: u64|
                    (#[trigger] translate(*final(pagePool), pt.root.0, q)) is None)
                &&& (forall|t: int| (#[trigger] final(pagePool).entry(pt.root.0, t)) == 0)
                &&& (forall|b: u64, t: int|
                    old(pagePool).is_table_addr(b) && b != pt.root.0 ==> (#[trigger] final(
                        pagePool).entry(b, t)) == old(pagePool).entry(b, t))
                &&& (old(pagePool).freePool@.len() > 0 ==> final(pagePool).freePool@ == old(
                    pagePool).freePool@.drop_last() && final(pagePool).next == old(pagePool).next)
                &&& (old(pagePool).freePool@.len() == 0 ==> final(pagePool).freePool@ == old(
                    pagePool).freePool@ && final(pagePool).next == old(pagePool).next + 1)
            }),
    {
        let ghost g0 = *pagePool;
        let root = match pagePool.Allocate() {
            Ok(a) => a,
            Err(e) => {
                return Err(e);
            },
        };
        pagePool.zero_frame(root.0);
        proof {
            assert forall|q: u64| (#[trigger] tbl3(*pagePool, root.0, q)) is None by {
                assert(pagePool.entry(root.0, l4_idx(q)) == 0);
            }
        }
        Ok(PageTables { root: root })
    }

    /// Wraps an existing root page address.
    pub fn Init(root: u64) -> (r: Self)
        ensures
            r.root.0 == root,
    {
        return PageTables { root: Addr(root) };
    }

    /// Maps the single page number `vpn` to the physical page
    /// `physPage`. An empty slot at any level is filled with a fresh
    /// zeroed table from the pool. A page already mapped keeps its
    /// translation and `true` is returned; otherwise the translation
    /// is installed and `false` is returned. No other canonical page's
    /// translation moves.
    fn MapPage(&self, pool: &mut PagePool, vpn: u64, physPage: u64) -> (r: Result<bool, Error>)
        requires
            pt_inv(*old(pool), self.root.0),
            vpn_canonical(vpn),
            (physPage as int) % (PAGE_SIZE_4K as int) == 0,
            physPage < MAX_PHY_ADDR,
        ensures
            pt_inv(*final(pool), self.root.0),
            final(pool).baseAddr == old(pool).baseAddr,
            final(pool).pageCount == old(pool).pageCount,
            final(pool).next >= old(pool).next,
            match r {
                Ok(prev) => {
                    &&& prev == (translate(*old(pool), self.root.0, vpn) is Some)
                    &&& (prev ==> translate(*final(pool), self.root.0, vpn) == translate(
                        *old(pool),
                        self.root.0,
                        vpn,
                    ))
                    &&& (!prev ==> translate(*final(pool), self.root.0, vpn) == Some(physPage))
                    &&& (forall|q: u64|
                        vpn_canonical(q) && q != vpn ==> (#[trigger] translate(
                            *final(pool),
                            self.root.0,
                            q,
                        )) == translate(*old(pool), self.root.0, q))
                },
                Err(e) => {
                    &&& e is NoEnoughMemory
                    &&& final(pool).freePool@.len() == 0
                    &&& final(pool).next == final(pool).pageCount
                    &&& (forall|q: u64|
                        (#[trigger] translate(*final(pool), self.root.0, q)) == translate(
                            *old(pool),
                            self.root.0,
                            q,
                        ))
                },
            },
    {
        let root = self.root.0;
        let ghost g0 = *pool;
        proof {
            lemma_idx_bounds(vpn);
        }
        let i4: usize = ((vpn >> 27) & 0x1ff) as usize;
        let i3: usize = ((vpn >> 18) & 0x1ff) as usize;
        let i2: usize = ((vpn >> 9) & 0x1ff) as usize;
        let i1: usize = (vpn & 0x1ff) as usize;

        let e4 = pool.read_entry(root, i4);
        let t3v: u64;
        if e4 == 0 {
            let n = match alloc_zeroed(pool, Ghost(root)) {
                Ok(n) => n,
                Err(e) => {
                    return Err(e);
                },
            };
            let ghost ga = *pool;
            proof {
                let b = pool.baseAddr.0;
                let nx = pool.next;
                let pc = pool.pageCount;
                assert(nx * PAGE_SIZE_4K <= pc * PAGE_SIZE_4K) by (nonlinear_arith)
                    requires
                        nx <= pc,
                ;
                lemma_entry_encode(n);
                assert(tbl3(ga, root, vpn) == tbl3(g0, root, vpn));
            }
            pool.write_entry(root, i4, n | PTE_DEFAULT_FLAGS);
            proof {
                lemma_link4(ga, *pool, root, vpn, n);
                assert forall|q: u64| (#[trigger] translate(*pool, root, q)) == translate(
                    g0,
                    root,
                    q,
                ) by {
                    assert(translate(*pool, root, q) == translate(ga, root, q));
                    assert(translate(ga, root, q) == translate(g0, root, q));
                }
                assert(tbl3(*pool, root, vpn) == Some(n));
                assert(tbl2(*pool, root, vpn) is None);
            }
            t3v = n;
        } else {
            t3v = e4 & PTE_ADDR_MASK;
            proof {
                assert(tbl3(*pool, root, vpn) == Some(t3v));
            }
        }
        let ghost p3 = *pool;
        proof {
            assert(ok_tbl(p3, root, tbl3(p3, root, vpn)));
        }

        let e3 = pool.read_entry(t3v, i3);
        let t2v: u64;
        if e3 == 0 {
            let n = match alloc_zeroed(pool, Ghost(root)) {
                Ok(n) => n,
                Err(e) => {
                    proof {
                        assert forall|q: u64| (#[trigger] translate(*pool, root, q)) == translate(
                            g0,
                            root,
                            q,
                        ) by {
                            assert(translate(*pool, root, q) == translate(p3, root, q));
                        }
                    }
                    return Err(e);
                },
            };
            let ghost ga = *pool;
            proof {
                let nx = pool.next;
                let pc = pool.pageCount;
                assert(nx * PAGE_SIZE_4K <= pc * PAGE_SIZE_4K) by (nonlinear_arith)
                    requires
                        nx <= pc,
                ;
                lemma_entry_encode(n);
                assert(tbl3(ga, root, vpn) == Some(t3v));
                assert(tbl2(ga, root, vpn) == tbl2(p3, root, vpn));
                assert(tbl2(ga, root, vpn) is None);
            }
            pool.write_entry(t3v, i3, n | PTE_DEFAULT_FLAGS);
            proof {
                lemma_link3(ga, *pool, root, vpn, t3v, n);
                assert forall|q: u64| (#[trigger] translate(*pool, root, q)) == translate(
                    g0,
                    root,
                    q,
                ) by {
                    assert(translate(*pool, root, q) == translate(ga, root, q));
                    assert(translate(ga, root, q) == translate(p3, root, q));
                    assert(translate(p3, root, q) == translate(g0, root, q));
                }
                assert(tbl2(*pool, root, vpn) == Some(n));
                assert(tbl1(*pool, root, vpn) is None);
            }
            t2v = n;
        } else {
            t2v = e3 & PTE_ADDR_MASK;
            proof {
                assert(tbl2(*pool, root, vpn) == Some(t2v));
            }
        }
        let ghost p2 = *pool;
        proof {
            assert(ok_tbl(p2, root, tbl2(p2, root, vpn)));
        }

        let e2 = pool.read_entry(t2v, i2);
        let t1v: u64;
        if e2 == 0 {
            let n = match alloc_zeroed(pool, Ghost(root)) {
                Ok(n) => n,
                Err(e) => {
                    proof {
                        assert forall|q: u64| (#[trigger] translate(*pool, root, q)) == translate(
                            g0,
                            root,
                            q,
                        ) by {
                            assert(translate(*pool, root, q) == translate(p2, root, q));
                        }
                    }
                    return Err(e);
                },
            };
            let ghost ga = *pool;
            proof {
                let nx = pool.next;
                let pc = pool.pageCount;
                assert(nx * PAGE_SIZE_4K <= pc * PAGE_SIZE_4K) by (nonlinear_arith)
                    requires
                        nx <= pc,
                ;
                lemma_entry_encode(n);
                assert(tbl2(ga, root, vpn) == Some(t2v));
                assert(tbl1(ga, root, vpn) == tbl1(p2, root, vpn));
                assert(tbl1(ga, root, vpn) is None);
            }
            pool.write_entry(t2v, i2, n | PTE_DEFAULT_FLAGS);
            proof {
                lemma_link2(ga, *pool, root, vpn, t2v, n);
                assert forall|q: u64| (#[trigger] translate(*pool, root, q)) == translate(
                    g0,
                    root,
                    q,
                ) by {
                    assert(translate(*pool, root, q) == translate(ga, root, q));
                    assert(translate(ga, root, q) == translate(p2, root, q));
                    assert(translate(p2, root, q) == translate(g0, root, q));
                }
                assert(tbl1(*pool, root, vpn) == Some(n));
            }
            t1v = n;
        } else {
            t1v = e2 & PTE_ADDR_MASK;
            proof {
                assert(tbl1(*pool, root, vpn) == Some(t1v));
            }
        }
        let ghost p1 = *pool;
        proof {
            assert(ok_tbl(p1, root, tbl1(p1, root, vpn)));
        }

        let e1 = pool.read_entry(t1v, i1);
        if e1 == 0 {
            proof {
                lemma_entry_encode(physPage);
            }
            pool.write_entry(t1v, i1, physPage | PTE_DEFAULT_FLAGS);
            proof {
                lemma_set_leaf(p1, *pool, root, vpn, t1v, physPage | PTE_DEFAULT_FLAGS);
                assert(translate(p1, root, vpn) is None);
                assert(translate(g0, root, vpn) is None);
                assert(translate(*pool, root, vpn) == Some(physPage));
                assert forall|q: u64| vpn_canonical(q) && q != vpn implies (#[trigger] translate(
                    *pool,
                    root,
                    q,
                )) == translate(g0, root, q) by {
                    if l4_idx(q) == l4_idx(vpn) && l3_idx(q) == l3_idx(vpn) && l2_idx(q) == l2_idx(
                        vpn,
                    ) && l1_idx(q) == l1_idx(vpn) {
                        lemma_vpn_index_injective(q, vpn);
                        assert(false);
                    } else {
                        assert(translate(*pool, root, q) == translate(p1, root, q));
                        assert(translate(p1, root, q) == translate(g0, root, q));
                    }
                }
            }
            return Ok(false);
        } else {
            proof {
                assert(translate(*pool, root, vpn) == Some(e1 & PTE_ADDR_MASK));
                assert(translate(g0, root, vpn) is Some);
            }
            return Ok(true);
        }
    }
}


impl PageTables {
    /// Maps the pages of `[start, end)` to a physical run starting at
    /// `phyAddr`, page by page, never overwriting an existing
    /// translation; returns whether any page of the range was already
    /// mapped. On exhaustion the pages handled so far keep their new
    /// translations, nothing is overwritten, and nothing outside the
    /// range moves.
    fn mapCanonical(
        &self,
        start: Addr,
        end: Addr,
        phyAddr: Addr,
        _opts: &PageOpts,
        pagePool: &mut PagePool,
    ) -> (r: Result<bool, Error>)
        requires
            pt_inv(*old(pagePool), self.root.0),
            (start.0 as int) % (PAGE_SIZE_4K as int) == 0,
            start.0 <= end.0,
            end.0 <= 0xffff_ffff_ffff_f000,
            (phyAddr.0 as int) % (PAGE_SIZE_4K as int) == 0,
            phyAddr.0 + (end.0 - start.0) <= MAX_PHY_ADDR,
            end.0 <= 0x8000_0000_0000 || start.0 >= UPPER_BOTTOM,
        ensures
            pt_inv(*final(pagePool), self.root.0),
            final(pagePool).baseAddr == old(pagePool).baseAddr,
            final(pagePool).pageCount == old(pagePool).pageCount,
            final(pagePool).next >= old(pagePool).next,
            forall|q: u64|
                vpn_canonical(q) && !in_span(q, start.0, end.0) ==> (#[trigger] translate(
                    *final(pagePool),
                    self.root.0,
                    q,
                )) == translate(*old(pagePool), self.root.0, q),
            match r {
                Ok(prev) => {
                    &&& (forall|q: u64|
                        in_span(q, start.0, end.0) ==> (#[trigger] translate(
                            *final(pagePool),
                            self.root.0,
                            q,
                        )) == (if translate(*old(pagePool), self.root.0, q) is Some {
                            translate(*old(pagePool), self.root.0, q)
                        } else {
                            Some(span_target(q, start.0, phyAddr.0))
                        }))
                    &&& prev == (exists|q: u64|
                        in_span(q, start.0, end.0) && (#[trigger] translate(
                            *old(pagePool),
                            self.root.0,
                            q,
                        )) is Some)
                },
                Err(e) => {
                    &&& e is NoEnoughMemory
                    &&& final(pagePool).freePool@.len() == 0
                    &&& final(pagePool).next == final(pagePool).pageCount
                    &&& (forall|q: u64|
                        vpn_canonical(q) && (#[trigger] translate(
                            *old(pagePool),
                            self.root.0,
                            q,
                        )) is Some ==> translate(*final(pagePool), self.root.0, q) == translate(
                            *old(pagePool),
                            self.root.0,
                            q,
                        ))
                },
            },
    {
        let ghost g0 = *pagePool;
        let ghost root = self.root.0;
        let svpn = start.0 / PAGE_SIZE_4K;
        let npages = (end.0 - start.0 + (PAGE_SIZE_4K - 1)) / PAGE_SIZE_4K;
        proof {
            assert((start.0 + (end.0 - start.0 + 0xfff) / 0x1000 * 0x1000) >= end.0
                && svpn + npages == (end.0 + 0xfff) / 0x1000 && svpn * 0x1000 == start.0 && (end.0
                + 0xfff) / 0x1000 * 0x1000 < end.0 + 0x1000) by (nonlinear_arith)
                requires
                    (start.0 as int) % 0x1000 == 0,
                    start.0 <= end.0,
                    end.0 <= 0xffff_ffff_ffff_f000,
                    svpn == start.0 / 0x1000,
                    npages == (end.0 - start.0 + 0xfff) / 0x1000,
            ;
        }
        let mut res = false;
        let mut i: u64 = 0;
        while i < npages
            invariant
                g0 == *old(pagePool),
                pt_inv(*pagePool, root),
                root == self.root.0,
                pagePool.baseAddr == g0.baseAddr,
                pagePool.pageCount == g0.pageCount,
                pagePool.next >= g0.next,
                pt_inv(g0, root),
                i <= npages,
                svpn == span_first(start.0),
                npages == span_count(start.0, end.0),
                (start.0 as int) % (PAGE_SIZE_4K as int) == 0,
                start.0 <= end.0,
                end.0 <= 0xffff_ffff_ffff_f000,
                (phyAddr.0 as int) % (PAGE_SIZE_4K as int) == 0,
                phyAddr.0 + (end.0 - start.0) <= MAX_PHY_ADDR,
                end.0 <= 0x8000_0000_0000 || start.0 >= UPPER_BOTTOM,
                svpn + npages == ((end.0 + 0xfff) as int) / 0x1000,
                forall|q: u64|
                    vpn_canonical(q) && !(svpn <= q < svpn + i) ==> (#[trigger] translate(
                        *pagePool,
                        root,
                        q,
                    )) == translate(g0, root, q),
                forall|q: u64|
                    svpn <= q < svpn + i ==> (#[trigger] translate(*pagePool, root, q)) == (
                    if translate(g0, root, q) is Some {
                        translate(g0, root, q)
                    } else {
                        Some(span_target(q, start.0, phyAddr.0))
                    }),
                res == (exists|q: u64|
                    svpn <= q < svpn + i && (#[trigger] translate(g0, root, q)) is Some),
            decreases npages - i,
        {
            let vpn = svpn + i;
            let physPage = phyAddr.0 + i * PAGE_SIZE_4K;
            proof {
                assert(i * 0x1000 <= end.0 - start.0 - 0xfff + 0xfff && (i + 1) * 0x1000 <= (end.0
                    - start.0 + 0xfff) && ((phyAddr.0 + i * 0x1000) as int) % 0x1000 == 0)
                    by (nonlinear_arith)
                    requires
                        i < npages,
                        npages == ((end.0 - start.0 + 0xfff) as int) / 0x1000,
                        (phyAddr.0 as int) % 0x1000 == 0,
                        start.0 <= end.0,
                        end.0 <= 0xffff_ffff_ffff_f000,
                ;
                assert(vpn_canonical(vpn)) by {
                    if start.0 >= UPPER_BOTTOM {
                        assert(svpn >= 0xf_fff8_0000_0000) by (nonlinear_arith)
                            requires
                                svpn == start.0 / 0x1000,
                                start.0 >= 0xffff_8000_0000_0000,
                        ;
                        assert(svpn + npages <= 0x10_0000_0000_0000);
                    } else {
                        assert(svpn + npages <= 0x8_0000_0000);
                    }
                }
            }
            let prev = match self.MapPage(pagePool, vpn, physPage) {
                Ok(b) => b,
                Err(e) => {
                    proof {
                        assert forall|q: u64|
                            vpn_canonical(q) && (#[trigger] translate(g0, root, q)) is Some implies translate(
                            *pagePool,
                            root,
                            q,
                        ) == translate(g0, root, q) by {}
                        assert forall|q: u64|
                            vpn_canonical(q) && !in_span(q, start.0, end.0) implies (
                        #[trigger] translate(*pagePool, root, q)) == translate(g0, root, q) by {}
                    }
                    return Err(e);
                },
            };
            if prev {
                res = true;
            }
            proof {
                assert(translate(g0, root, vpn) is Some ==> prev) by {}
            }
            i = i + 1;
        }
        proof {
            assert forall|q: u64| in_span(q, start.0, end.0) implies (#[trigger] translate(
                *pagePool,
                root,
                q,
            )) == (if translate(g0, root, q) is Some {
                translate(g0, root, q)
            } else {
                Some(span_target(q, start.0, phyAddr.0))
            }) by {}
        }
        return Ok(res);
    }
}


/// The sub-range a mapping request for `[start, end)` is actually
/// applied to, after clipping at the canonical boundaries: a request
/// reaching past the lower half's top is cut there (the upper
/// remainder is dropped), one starting in the non-canonical gap is
/// clipped to begin at the upper half, and one lying wholly in the
/// gap maps nothing.
pub open spec fn eff_range(start: u64, end: u64) -> Option<(u64, u64)> {
    if start < LOWER_TOP {
        if end <= LOWER_TOP {
            Some((start, end))
        } else {
            Some((start, LOWER_TOP))
        }
    } else if start < UPPER_BOTTOM {
        if end > UPPER_BOTTOM {
            Some((UPPER_BOTTOM, end))
        } else {
            None
        }
    } else {
        Some((start, end))
    }
}

impl PageTables {
    /// Maps the page-aligned range `[start, end)` onto the physical
    /// run at `physical`, clipped at the canonical boundaries as
    /// `eff_range` describes. An all-false access request unmaps
    /// instead (a stub). Already-mapped pages keep their translation;
    /// the return value reports whether any page of the effective
    /// range was previously mapped.
    pub fn MapRange(
        &self,
        start: Addr,
        end: Addr,
        physical: Addr,
        opts: &PageOpts,
        pagePool: &mut PagePool,
    ) -> (r: Result<bool, Error>)
        requires
            pt_inv(*old(pagePool), self.root.0),
            (opts.AccessType.spec_any() && (start.0 as int) % (PAGE_SIZE_4K as int) == 0 && end.0
                >= start.0 && eff_range(start.0, end.0) is Some) ==> ({
                let (es, ee) = eff_range(start.0, end.0).unwrap();
                &&& (physical.0 as int) % (PAGE_SIZE_4K as int) == 0
                &&& physical.0 + (ee - es) <= MAX_PHY_ADDR
                &&& ee <= 0xffff_ffff_ffff_f000
            }),
        ensures
            pt_inv(*final(pagePool), self.root.0),
            final(pagePool).baseAddr == old(pagePool).baseAddr,
            final(pagePool).pageCount == old(pagePool).pageCount,
            final(pagePool).next >= old(pagePool).next,
            !opts.AccessType.spec_any() ==> (r matches Ok(b) && b == true && *final(pagePool)
                == *old(pagePool)),
            opts.AccessType.spec_any() && (start.0 as int) % (PAGE_SIZE_4K as int) != 0 ==> (
            r matches Err(e) && e is UnallignedAddress && *final(pagePool) == *old(pagePool)),
            opts.AccessType.spec_any() && (start.0 as int) % (PAGE_SIZE_4K as int) == 0 && end.0
                < start.0 ==> (r matches Err(e) && e is AddressNotInRange && *final(pagePool)
                == *old(pagePool)),
            opts.AccessType.spec_any() && (start.0 as int) % (PAGE_SIZE_4K as int) == 0 && end.0
                >= start.0 && eff_range(start.0, end.0) is None ==> (r matches Ok(b) && b == false
                && *final(pagePool) == *old(pagePool)),
            (opts.AccessType.spec_any() && (start.0 as int) % (PAGE_SIZE_4K as int) == 0 && end.0
                >= start.0 && eff_range(start.0, end.0) is Some) ==> ({
                let (es, ee) = eff_range(start.0, end.0).unwrap();
                &&& (forall|q: u64|
                    vpn_canonical(q) && !in_span(q, es, ee) ==> (#[trigger] translate(
                        *final(pagePool),
                        self.root.0,
                        q,
                    )) == translate(*old(pagePool), self.root.0, q))
                &&& match r {
                    Ok(prev) => {
                        &&& (forall|q: u64|
                            in_span(q, es, ee) ==> (#[trigger] translate(
                                *final(pagePool),
                                self.root.0,
                                q,
                            )) == (if translate(*old(pagePool), self.root.0, q) is Some {
                                translate(*old(pagePool), self.root.0, q)
                            } else {
                                Some(span_target(q, es, physical.0))
                            }))
                        &&& prev == (exists|q: u64|
                            in_span(q, es, ee) && (#[trigger] translate(
                                *old(pagePool),
                                self.root.0,
                                q,
                            )) is Some)
                    },
                    Err(e) => {
                        &&& e is NoEnoughMemory
                        &&& final(pagePool).freePool@.len() == 0
                        &&& final(pagePool).next == final(pagePool).pageCount
                        &&& (forall|q: u64|
                            vpn_canonical(q) && (#[trigger] translate(
                                *old(pagePool),
                                self.root.0,
                                q,
                            )) is Some ==> translate(*final(pagePool), self.root.0, q) == translate(
                                *old(pagePool),
                                self.root.0,
                                q,
                            ))
                    },
                }
            }),
    {
        if !opts.AccessType.Any() {
            return self.Unmap(start, end);
        }
        match start.PageAligned() {
            Ok(_) => {},
            Err(e) => {
                return Err(e);
            },
        }
        if end.0 < start.0 {
            return Err(Error::AddressNotInRange);
        }
        if start.0 < LOWER_TOP {
            if end.0 <= LOWER_TOP {
                return self.mapCanonical(start, end, physical, opts, pagePool);
            } else if end.0 > LOWER_TOP && end.0 <= UPPER_BOTTOM {
                return self.mapCanonical(start, Addr(LOWER_TOP), physical, opts, pagePool);
            } else {
                return self.mapCanonical(start, Addr(LOWER_TOP), physical, opts, pagePool);
            }
        } else if start.0 < UPPER_BOTTOM {
            if end.0 > UPPER_BOTTOM {
                return self.mapCanonical(Addr(UPPER_BOTTOM), end, physical, opts, pagePool);
            }
        } else {
            return self.mapCanonical(start, end, physical, opts, pagePool);
        }

        return Ok(false);
    }

    /// Walks the four levels read-only and returns the physical
    /// address `vaddr` translates to; fails with `AddressNotMap` as
    /// soon as a level is absent.
    pub fn VirtuallToPhy(&self, pool: &PagePool, vaddr: u64) -> (r: Result<u64, Error>)
        requires
            pt_inv(*pool, self.root.0),
            vaddr < 0x8000_0000_0000 || vaddr >= UPPER_BOTTOM,
        ensures
            match translate(*pool, self.root.0, vpn_of(vaddr)) {
                Some(b) => r matches Ok(x) && x == b + (vaddr as int) % (PAGE_SIZE_4K as int),
                None => r matches Err(e) && e is AddressNotMap,
            },
    {
        let ghost root = self.root.0;
        let vpn = vaddr / PAGE_SIZE_4K;
        proof {
            lemma_idx_bounds(vpn);
        }
        let i4: usize = ((vpn >> 27) & 0x1ff) as usize;
        let i3: usize = ((vpn >> 18) & 0x1ff) as usize;
        let i2: usize = ((vpn >> 9) & 0x1ff) as usize;
        let i1: usize = (vpn & 0x1ff) as usize;

        let pgdEntry = pool.read_entry(self.root.0, i4);
        if pgdEntry == 0 {
            return Err(Error::AddressNotMap);
        }
        let pudTbl = pgdEntry & PTE_ADDR_MASK;
        proof {
            assert(tbl3(*pool, root, vpn) == Some(pudTbl));
            assert(ok_tbl(*pool, root, tbl3(*pool, root, vpn)));
        }
        let pudEntry = pool.read_entry(pudTbl, i3);
        if pudEntry == 0 {
            return Err(Error::AddressNotMap);
        }
        let pmdTbl = pudEntry & PTE_ADDR_MASK;
        proof {
            assert(tbl2(*pool, root, vpn) == Some(pmdTbl));
            assert(ok_tbl(*pool, root, tbl2(*pool, root, vpn)));
        }
        let pmdEntry = pool.read_entry(pmdTbl, i2);
        if pmdEntry == 0 {
            return Err(Error::AddressNotMap);
        }
        let pteTbl = pmdEntry & PTE_ADDR_MASK;
        proof {
            assert(tbl1(*pool, root, vpn) == Some(pteTbl));
            assert(ok_tbl(*pool, root, tbl1(*pool, root, vpn)));
        }
        let pteEntry = pool.read_entry(pteTbl, i1);
        if pteEntry == 0 {
            return Err(Error::AddressNotMap);
        }
        let pageAddr = Addr(vaddr).PageOffset();
        proof {
            let e = pteEntry;
            assert(e & 0xf_ffff_ffff_f000 <= 0xf_ffff_ffff_f000) by (bit_vector);
            assert(translate(*pool, root, vpn) == Some(pteEntry & PTE_ADDR_MASK));
        }
        let phyAddr = (pteEntry & PTE_ADDR_MASK) + pageAddr;
        return Ok(phyAddr);
    }

    /// Unmapping is a stub: it reports that a prior mapping may have
    /// existed and modifies no table.
    pub fn Unmap(&self, _start: Addr, _end: Addr) -> (r: Result<bool, Error>)
        ensures
            r matches Ok(b) && b == true,
    {
        return Ok(true);
    }
}


/// With no freed pages pending, allocations come from the bump cursor
/// in strictly increasing address order, one page apart, and the pool
/// fails with exhaustion exactly when the cursor reaches `pageCount`.
pub proof fn lemma_bump_allocation_order(p: PagePool)
    requires
        p.wf(),
        p.freePool@.len() == 0,
    ensures
        p.next < p.pageCount ==> p.allocate_result() == Some(
            (p.baseAddr.0 + p.next * PAGE_SIZE_4K) as u64,
        ),
        p.next == p.pageCount ==> p.allocate_result() is None,
        forall|i: int, j: int|
            0 <= i < j <= p.pageCount ==> p.baseAddr.0 + (#[trigger] (i * PAGE_SIZE_4K))
                < p.baseAddr.0 + (#[trigger] (j * PAGE_SIZE_4K)),
{
    assert forall|i: int, j: int|
        0 <= i < j <= p.pageCount implies p.baseAddr.0 + (#[trigger] (i * PAGE_SIZE_4K))
        < p.baseAddr.0 + (#[trigger] (j * PAGE_SIZE_4K)) by {
        assert(i * PAGE_SIZE_4K < j * PAGE_SIZE_4K) by (nonlinear_arith)
            requires
                0 <= i < j,
        ;
    }
}

/// Freeing a page and then allocating returns exactly that page
/// (last-in, first-out), before any page beyond the bump cursor is
/// handed out.
pub proof fn lemma_free_then_allocate(pre: PagePool, post: PagePool, addr: u64)
    requires
        pre.wf(),
        (addr as int) % (PAGE_SIZE_4K as int) == 0,
        addr >= pre.baseAddr.0,
        pre.frame_idx(addr) < pre.pageCount,
        post.freePool@ == pre.freePool@.push((pre.frame_idx(addr)) as u32),
        post.baseAddr == pre.baseAddr,
        post.next == pre.next,
        post.pageCount == pre.pageCount,
    ensures
        post.allocate_result() == Some(addr),
{
    let idx = pre.frame_idx(addr);
    assert(0 <= idx < 0x1_0000_0000);
    assert(post.freePool@.last() == (idx as u32));
    assert(pre.baseAddr.0 + idx * 0x1000 == addr) by (nonlinear_arith)
        requires
            idx == (addr - pre.baseAddr.0) / 0x1000,
            (addr as int) % 0x1000 == 0,
            (pre.baseAddr.0 as int) % 0x1000 == 0,
            addr >= pre.baseAddr.0,
    ;
}

/// A mapping applied to tables that map nothing gives every page of
/// the range the translation `physical + (page - start)`: the walk of
/// any page-aligned `v` in `[start, end)` lands exactly there, and
/// every canonical page outside the range stays unmapped.
pub proof fn lemma_map_fresh_translates(
    pre: PagePool,
    post: PagePool,
    root: u64,
    start: u64,
    end: u64,
    phys: u64,
    v: u64,
)
    requires
        forall|q: u64|
            in_span(q, start, end) ==> (#[trigger] translate(post, root, q)) == (if translate(
                pre,
                root,
                q,
            ) is Some {
                translate(pre, root, q)
            } else {
                Some(span_target(q, start, phys))
            }),
        forall|q: u64|
            vpn_canonical(q) && !in_span(q, start, end) ==> (#[trigger] translate(post, root, q))
                == translate(pre, root, q),
        forall|q: u64| (#[trigger] translate(pre, root, q)) is None,
        (start as int) % (PAGE_SIZE_4K as int) == 0,
        (v as int) % (PAGE_SIZE_4K as int) == 0,
        start <= v < end,
    ensures
        translate(post, root, vpn_of(v)) == Some((phys + (v - start)) as u64),
        forall|q: u64|
            vpn_canonical(q) && !in_span(q, start, end) ==> (#[trigger] translate(post, root, q))
                is None,
{
    let q = vpn_of(v);
    assert(in_span(q, start, end) && span_target(q, start, phys) == ((phys + (v - start)) as u64))
        by (nonlinear_arith)
        requires
            q == v / 0x1000,
            (start as int) % 0x1000 == 0,
            (v as int) % 0x1000 == 0,
            start <= v < end,
            span_first(start) == start / 0x1000,
            span_count(start, end) == ((end as int) - (start as int) + 0xfff) / 0x1000,
            in_span(q, start, end) == (span_first(start) <= q < span_first(start) + span_count(
                start,
                end,
            )),
            span_target(q, start, phys) == (((phys as int) + (q - span_first(start)) * 0x1000) as u64),
    ;
}

/// Mapping onto a page that is already mapped does not change that
/// page's translation, and the call reports the previous mapping.
pub proof fn lemma_map_keeps_existing(
    pre: PagePool,
    post: PagePool,
    root: u64,
    start: u64,
    end: u64,
    phys: u64,
    prev: bool,
    v: u64,
)
    requires
        forall|q: u64|
            in_span(q, start, end) ==> (#[trigger] translate(post, root, q)) == (if translate(
                pre,
                root,
                q,
            ) is Some {
                translate(pre, root, q)
            } else {
                Some(span_target(q, start, phys))
            }),
        prev == (exists|q: u64|
            in_span(q, start, end) && (#[trigger] translate(pre, root, q)) is Some),
        (start as int) % (PAGE_SIZE_4K as int) == 0,
        (v as int) % (PAGE_SIZE_4K as int) == 0,
        start <= v < end,
        translate(pre, root, vpn_of(v)) is Some,
    ensures
        translate(post, root, vpn_of(v)) == translate(pre, root, vpn_of(v)),
        prev == true,
{
    let q = vpn_of(v);
    assert(in_span(q, start, end)) by (nonlinear_arith)
        requires
            q == v / 0x1000,
            (start as int) % 0x1000 == 0,
            (v as int) % 0x1000 == 0,
            start <= v < end,
            span_first(start) == start / 0x1000,
            span_count(start, end) == ((end as int) - (start as int) + 0xfff) / 0x1000,
            in_span(q, start, end) == (span_first(start) <= q < span_first(start) + span_count(
                start,
                end,
            )),
    ;
}

/// A request that reaches past the lower canonical half is clipped
/// there: no page at or above the upper half's bottom is touched by
/// it.
pub proof fn lemma_map_clipped_at_gap(
    pre: PagePool,
    post: PagePool,
    root: u64,
    start: u64,
    v: u64,
)
    requires
        forall|q: u64|
            vpn_canonical(q) && !in_span(q, start, LOWER_TOP) ==> (#[trigger] translate(
                post,
                root,
                q,
            )) == translate(pre, root, q),
        start < LOWER_TOP,
        v >= UPPER_BOTTOM,
    ensures
        translate(post, root, vpn_of(v)) == translate(pre, root, vpn_of(v)),
{
    let q = vpn_of(v);
    assert(q >= 0xf_fff8_0000_0000 && q < 0x10_0000_0000_0000 && !(span_first(start) <= q
        < span_first(start) + span_count(start, LOWER_TOP))) by (nonlinear_arith)
        requires
            q == v / 0x1000,
            v >= 0xffff_8000_0000_0000,
            start < 0x7fff_ffff_ffff,
            span_first(start) == start / 0x1000,
            span_count(start, LOWER_TOP) == ((0x7fff_ffff_ffffu64 as int) - (start as int) + 0xfff)
                / 0x1000,
    ;
    assert(vpn_canonical(q));
    assert(!in_span(q, start, LOWER_TOP));
}

/// The guest-side page pool draws fresh 4 KiB pages straight from the
/// guest heap; only its construction lives here, the allocation calls
/// themselves belong to the guest runtime.
pub struct GuestPagePool {}

impl GuestPagePool {
    pub fn new() -> Self {
        return GuestPagePool {  };
    }
}

} // verus!
