//! The guest kernel image loader: parses the 64-bit ELF header and
//! program headers out of the raw file bytes, computes the
//! page-rounded guest-physical footprint of the loadable segments,
//! copies their bytes into the image of the backing region, and
//! installs identity mappings for them.
//!
//! Reading the file and obtaining the fixed-placement host mapping is
//! the application's part; it hands the bytes and the mapping in as
//! plain values.

use vstd::prelude::*;

use crate::addr::round_down;
use crate::addr::round_up;
use crate::addr::Addr;
use crate::addr::PageOpts;
use crate::common::Error;
use crate::mem::MappedRegion;
use crate::pagetable::eff_range;
use crate::pagetable::in_span;
use crate::pagetable::span_count;
use crate::pagetable::span_first;
use crate::pagetable::span_target;
use crate::pagetable::translate;
use crate::pagetable::vpn_canonical;
use crate::pagetable::LOWER_TOP;
use crate::pagetable::PAGE_SIZE_4K;
use crate::vmspace::VMSpace;

verus! {

/// The little-endian 16-bit value at `off`.
pub open spec fn le16(b: Seq<u8>, off: int) -> int {
    b[off] + 0x100 * b[off + 1]
}

/// The little-endian 32-bit value at `off`.
pub open spec fn le32(b: Seq<u8>, off: int) -> int {
    le16(b, off) + 0x10000 * le16(b, off + 2)
}

/// The little-endian 64-bit value at `off`.
pub open spec fn le64(b: Seq<u8>, off: int) -> int {
    le32(b, off) + 0x1_0000_0000 * le32(b, off + 4)
}

/// The bytes begin with the ELF magic and a recognized class.
pub open spec fn elf_header_ok(b: Seq<u8>) -> bool {
    &&& b.len() >= 64
    &&& b[0] == 0x7f
    &&& b[1] == 0x45
    &&& b[2] == 0x4c
    &&& b[3] == 0x46
    &&& (b[4] == 1 || b[4] == 2)
}

pub open spec fn elf_is_64bit(b: Seq<u8>) -> bool {
    b[4] == 2
}

pub open spec fn elf_entry(b: Seq<u8>) -> int {
    le64(b, 24)
}

pub open spec fn elf_phoff(b: Seq<u8>) -> int {
    le64(b, 32)
}

pub open spec fn elf_phentsize(b: Seq<u8>) -> int {
    le16(b, 54)
}

pub open spec fn elf_phnum(b: Seq<u8>) -> int {
    le16(b, 56)
}

/// Where program header `i` starts in the file.
pub open spec fn ph_base(b: Seq<u8>, i: int) -> int {
    elf_phoff(b) + i * elf_phentsize(b)
}

/// Program header `i` lies fully inside the file.
pub open spec fn ph_ok(b: Seq<u8>, i: int) -> bool {
    ph_base(b, i) + 56 <= b.len()
}

pub open spec fn ph_type(b: Seq<u8>, i: int) -> int {
    le32(b, ph_base(b, i))
}

pub open spec fn ph_offset(b: Seq<u8>, i: int) -> int {
    le64(b, ph_base(b, i) + 8)
}

pub open spec fn ph_vaddr(b: Seq<u8>, i: int) -> int {
    le64(b, ph_base(b, i) + 16)
}

pub open spec fn ph_filesz(b: Seq<u8>, i: int) -> int {
    le64(b, ph_base(b, i) + 32)
}

/// One loadable segment: where its bytes sit in the file and where
/// they belong in guest-virtual memory.
#[derive(Debug, Copy, Clone, PartialEq, Eq, Structural)]
pub struct Segment {
    pub vaddr: u64,
    pub offset: u64,
    pub fileSize: u64,
}

/// The result of scanning the first `n` program headers: the running
/// minimum page-rounded start, maximum page-rounded end, and the
/// loadable segments in file order. A header outside the file is a
/// format error; a segment whose extent or page rounding would wrap
/// is an overflow error.
pub open spec fn scan_segments(b: Seq<u8>, n: int) -> Result<(int, int, Seq<Segment>), Error>
    decreases n,
{
    if n <= 0 {
        Ok((0xfff_ffff_ffff_ffff as int, 0, Seq::empty()))
    } else {
        match scan_segments(b, n - 1) {
            Err(e) => Err(e),
            Ok((s, e0, segs)) => {
                let i = n - 1;
                if !ph_ok(b, i) {
                    Err(Error::WrongELFFormat)
                } else if ph_type(b, i) != 1 {
                    Ok((s, e0, segs))
                } else {
                    let va = ph_vaddr(b, i);
                    let fs = ph_filesz(b, i);
                    if va + fs > u64::MAX {
                        Err(Error::Overflow)
                    } else if va + fs + 0xfff > u64::MAX {
                        Err(Error::Overflow)
                    } else {
                        let sm = round_down(va);
                        let em = round_up(va + fs);
                        Ok(
                            (
                                if sm < s {
                                    sm
                                } else {
                                    s
                                },
                                if e0 < em {
                                    em
                                } else {
                                    e0
                                },
                                segs.push(
                                    Segment {
                                        vaddr: va as u64,
                                        offset: ph_offset(b, i) as u64,
                                        fileSize: fs as u64,
                                    },
                                ),
                            ),
                        )
                    }
                }
            },
        }
    }
}

/// Once the scan has failed, every longer scan reports the same
/// failure.
proof fn lemma_scan_err_persists(b: Seq<u8>, n: int, m: int)
    requires
        0 <= n <= m,
        scan_segments(b, n) is Err,
    ensures
        scan_segments(b, m) == scan_segments(b, n),
    decreases m - n,
{
    if m > n {
        lemma_scan_err_persists(b, n, m - 1);
    }
}

/// A successful scan's start and end bound every collected segment's
/// page-rounded extent, and every segment's rounding stays
/// representable.
proof fn lemma_scan_bounds(b: Seq<u8>, n: int)
    requires
        n >= 0,
        scan_segments(b, n) is Ok,
    ensures
        ({
            let (s, e, segs) = scan_segments(b, n).unwrap();
            &&& 0 <= e <= u64::MAX
            &&& 0 <= s <= 0xfff_ffff_ffff_ffff
            &&& forall|j: int|
                0 <= j < segs.len() ==> {
                    let g = #[trigger] segs[j];
                    &&& s <= round_down(g.vaddr as int)
                    &&& g.vaddr + g.fileSize + 0xfff <= u64::MAX
                    &&& round_up(g.vaddr + g.fileSize) <= e
                }
        }),
    decreases n,
{
    if n > 0 {
        if scan_segments(b, n - 1) is Ok {
            lemma_scan_bounds(b, n - 1);
        }
    }
}

/// The parsed guest kernel image, its chosen guest-physical
/// placement, and (after loading) the bytes of its backing region.
pub struct KernelELF {
    /// The raw image file.
    pub file: Vec<u8>,
    /// The minimum page-rounded start over all loadable segments.
    pub startAddr: Addr,
    /// The maximum page-rounded end over all loadable segments.
    pub endAddr: Addr,
    /// The entry point from the 64-bit header.
    pub entry: u64,
    /// The loadable segments in file order.
    pub segs: Vec<Segment>,
    /// The backing host mapping, once the kernel is loaded.
    pub mr: Option<MappedRegion>,
    /// The bytes of the backing region after loading: the segment
    /// bytes at their offsets, zero in the gaps.
    pub image: Vec<u8>,
}

impl KernelELF {
    /// What `Init` establishes: the placement bounds every segment's
    /// page-rounded extent and each segment's arithmetic is
    /// representable.
    pub open spec fn wf(self) -> bool {
        forall|j: int|
            0 <= j < self.segs.len() ==> {
                let g = #[trigger] self.segs[j];
                &&& self.startAddr.0 <= round_down(g.vaddr as int)
                &&& g.vaddr + g.fileSize + 0xfff <= u64::MAX
                &&& round_up(g.vaddr + g.fileSize) <= self.endAddr.0
            }
    }

    pub fn StartAddr(&self) -> (r: Addr)
        ensures
            r == self.startAddr,
    {
        return self.startAddr;
    }

    pub fn EndAddr(&self) -> (r: Addr)
        ensures
            r == self.endAddr,
    {
        return self.endAddr;
    }
}


/// Reads the little-endian 16-bit value at `off`.
fn read_u16(b: &Vec<u8>, off: usize) -> (r: u16)
    requires
        off + 2 <= b.len(),
    ensures
        r == le16(b@, off as int),
{
    return b[off] as u16 + b[off + 1] as u16 * 0x100;
}

/// Reads the little-endian 32-bit value at `off`.
fn read_u32(b: &Vec<u8>, off: usize) -> (r: u32)
    requires
        off + 4 <= b.len(),
    ensures
        r == le32(b@, off as int),
{
    return b[off] as u32 + b[off + 1] as u32 * 0x100 + b[off + 2] as u32 * 0x10000 + b[off
        + 3] as u32 * 0x100_0000;
}

/// Reads the little-endian 64-bit value at `off`.
fn read_u64(b: &Vec<u8>, off: usize) -> (r: u64)
    requires
        off + 8 <= b.len(),
    ensures
        r == le64(b@, off as int),
{
    return b[off] as u64 + b[off + 1] as u64 * 0x100 + b[off + 2] as u64 * 0x10000 + b[off
        + 3] as u64 * 0x100_0000 + b[off + 4] as u64 * 0x1_0000_0000 + b[off + 5] as u64
        * 0x100_0000_0000 + b[off + 6] as u64 * 0x1_0000_0000_0000 + b[off + 7] as u64
        * 0x100_0000_0000_0000;
}

impl KernelELF {
    /// Parses the image bytes: rejects anything but a 64-bit ELF
    /// header, reads the entry point, and folds the loadable
    /// segments' page-rounded extents into the start/end placement.
    pub fn Init(file: Vec<u8>) -> (r: Result<Self, Error>)
        ensures
            !elf_header_ok(file@) ==> (r matches Err(e) && e is WrongELFFormat),
            elf_header_ok(file@) && !elf_is_64bit(file@) ==> (r matches Err(e)
                && e is WrongELFFormat),
            elf_header_ok(file@) && elf_is_64bit(file@) && elf_phnum(file@) > 0 && elf_phentsize(
                file@,
            ) < 56 ==> (r matches Err(e) && e is WrongELFFormat),
            (elf_header_ok(file@) && elf_is_64bit(file@) && (elf_phnum(file@) == 0 || elf_phentsize(
                file@,
            ) >= 56)) ==> (match scan_segments(file@, elf_phnum(file@)) {
                Err(e0) => r matches Err(e) && e == e0,
                Ok((s, e0, segs)) => r matches Ok(k) && k.file@ == file@ && k.startAddr.0 == s
                    && k.endAddr.0 == e0 && k.entry == elf_entry(file@) && k.segs@ == segs
                    && k.mr is None && k.image@.len() == 0 && k.wf(),
            }),
    {
        if file.len() < 64 {
            return Err(Error::WrongELFFormat);
        }
        if !(file[0] == 0x7f && file[1] == 0x45 && file[2] == 0x4c && file[3] == 0x46) {
            return Err(Error::WrongELFFormat);
        }
        if file[4] != 1 && file[4] != 2 {
            return Err(Error::WrongELFFormat);
        }
        if file[4] != 2 {
            return Err(Error::WrongELFFormat);
        }
        let entry = read_u64(&file, 24);
        let phoff = read_u64(&file, 32);
        let phentsize = read_u16(&file, 54);
        let phnum = read_u16(&file, 56);
        if phnum > 0 && phentsize < 56 {
            return Err(Error::WrongELFFormat);
        }
        let mut startAddr = Addr(0xfff_ffff_ffff_ffff);
        let mut endAddr = Addr(0);
        let mut segs: Vec<Segment> = Vec::new();
        let flen = file.len() as u64;
        let mut i: u16 = 0;
        while i < phnum
            invariant
                i <= phnum,
                elf_header_ok(file@),
                elf_is_64bit(file@),
                flen == file@.len(),
                flen <= usize::MAX,
                entry == elf_entry(file@),
                phoff == elf_phoff(file@),
                phentsize == elf_phentsize(file@),
                phnum == elf_phnum(file@),
                phnum > 0 ==> phentsize >= 56,
                scan_segments(file@, i as int) == Ok::<(int, int, Seq<Segment>), Error>(
                    (startAddr.0 as int, endAddr.0 as int, segs@),
                ),
            decreases phnum - i,
        {
            let ghost pre = scan_segments(file@, i as int);
            proof {
                let ii = i;
                let ps = phentsize;
                assert((ii as int) * (ps as int) <= 0xffff * 0xffff) by (nonlinear_arith)
                    requires
                        ii <= 0xffff,
                        ps <= 0xffff,
                ;
            }
            let need = i as u64 * phentsize as u64;
            if !(phoff <= flen && need <= flen - phoff && 56 <= flen - phoff - need) {
                proof {
                    assert(!ph_ok(file@, i as int));
                    lemma_scan_err_persists(file@, i as int + 1, phnum as int);
                }
                return Err(Error::WrongELFFormat);
            }
            proof {
                assert(phoff + need + 56 <= flen);
            }
            let base = (phoff + need) as usize;
            proof {
                assert(base == ph_base(file@, i as int));
                assert(base + 56 <= file@.len());
            }
            let type_ = read_u32(&file, base);
            if type_ == 1 {
                let offset = read_u64(&file, base + 8);
                let va = read_u64(&file, base + 16);
                let fs = read_u64(&file, base + 32);
                let vaEnd = match Addr(va).AddLen(fs) {
                    Ok(a) => a,
                    Err(e) => {
                        proof {
                            lemma_scan_err_persists(file@, i as int + 1, phnum as int);
                        }
                        return Err(e);
                    },
                };
                let endMem = match vaEnd.RoundUp() {
                    Ok(a) => a,
                    Err(e) => {
                        proof {
                            lemma_scan_err_persists(file@, i as int + 1, phnum as int);
                        }
                        return Err(e);
                    },
                };
                let startMem = match Addr(va).RoundDown() {
                    Ok(a) => a,
                    Err(e) => {
                        return Err(e);
                    },
                };
                if startMem.0 < startAddr.0 {
                    startAddr = startMem;
                }
                if endAddr.0 < endMem.0 {
                    endAddr = endMem;
                }
                segs.push(Segment { vaddr: va, offset: offset, fileSize: fs });
            }
            i = i + 1;
        }
        proof {
            lemma_scan_bounds(file@, phnum as int);
            let (gs, ge, gsegs) = scan_segments(file@, phnum as int).unwrap();
            assert(gs == startAddr.0 && ge == endAddr.0 && gsegs == segs@);
            assert forall|jj: int| 0 <= jj < segs@.len() implies {
                let g = #[trigger] segs@[jj];
                &&& startAddr.0 <= round_down(g.vaddr as int)
                &&& g.vaddr + g.fileSize + 0xfff <= u64::MAX
                &&& round_up(g.vaddr + g.fileSize) <= endAddr.0
            } by {
                assert(gsegs[jj] == segs@[jj]);
            }
        }
        return Ok(
            KernelELF {
                file,
                startAddr,
                endAddr,
                entry,
                segs,
                mr: None,
                image: Vec::new(),
            },
        );
    }
}


/// The first guest page of a segment's page-rounded extent.
pub open spec fn seg_start_page(g: Segment) -> u64 {
    round_down(g.vaddr as int) as u64
}

/// One past the last byte of a segment's page-rounded extent.
pub open spec fn seg_end_page(g: Segment) -> u64 {
    round_up(g.vaddr + g.fileSize) as u64
}

/// Whether page number `q` lies in the segment's page-rounded extent.
pub open spec fn seg_vpn_span(q: u64, g: Segment) -> bool {
    in_span(q, seg_start_page(g), seg_end_page(g))
}

/// Whether guest-virtual byte address `a` carries a byte of the
/// segment.
pub open spec fn seg_covers(g: Segment, a: int) -> bool {
    g.vaddr <= a < g.vaddr + g.fileSize
}

/// The segment's bytes lie inside the file.
pub open spec fn seg_in_file(g: Segment, b: Seq<u8>) -> bool {
    g.offset + g.fileSize <= b.len()
}

impl KernelELF {
    /// Loads the kernel into the backing region the application
    /// mapped for `[startAddr, endAddr)`: the region must sit exactly
    /// at the computed start (the fatal address-mismatch check), each
    /// loadable segment's file bytes are copied to its guest-virtual
    /// offset in the image, the gaps stay zero, and each segment's
    /// page-rounded extent is identity-mapped (guest-physical equal
    /// to guest-virtual) through the page tables, never overwriting
    /// an existing translation. Returns the guest entry address.
    #[verifier::rlimit(100)]
    pub fn LoadKernel(&mut self, mr: MappedRegion, vms: &mut VMSpace) -> (r: Result<u64, Error>)
        requires
            old(self).wf(),
            old(self).startAddr.0 <= old(self).endAddr.0,
            old(self).endAddr.0 <= LOWER_TOP,
            old(self).endAddr.0 - old(self).startAddr.0 <= usize::MAX,
            mr.sz == old(self).endAddr.0 - old(self).startAddr.0,
            old(vms).wf(),
        ensures
            final(vms).wf(),
            final(vms).pageTables == old(vms).pageTables,
            ({
                let root = old(vms).pageTables.unwrap().root.0;
                forall|q: u64|
                    vpn_canonical(q) && (#[trigger] translate(
                        old(vms).pagePool.unwrap(),
                        root,
                        q,
                    )) is Some ==> translate(final(vms).pagePool.unwrap(), root, q) == translate(
                        old(vms).pagePool.unwrap(),
                        root,
                        q,
                    )
            }),
            mr.ptr != old(self).startAddr.0 ==> (r matches Err(e) && e is AddressDoesMatch
                && *final(self) == *old(self) && *final(vms) == *old(vms)),
            mr.ptr == old(self).startAddr.0 ==> ({
                let root = old(vms).pageTables.unwrap().root.0;
                let pre = old(vms).pagePool.unwrap();
                let post = final(vms).pagePool.unwrap();
                let segs = old(self).segs@;
                let file = old(self).file@;
                let start = old(self).startAddr.0;
                match r {
                    Ok(entry) => {
                        &&& entry == old(self).entry
                        &&& final(self).file@ == old(self).file@
                        &&& final(self).startAddr == old(self).startAddr
                        &&& final(self).endAddr == old(self).endAddr
                        &&& final(self).entry == old(self).entry
                        &&& final(self).segs@ == old(self).segs@
                        &&& (final(self).mr matches Some(m) && m == mr)
                        &&& final(self).image@.len() == old(self).endAddr.0 - old(
                            self,
                        ).startAddr.0
                        &&& (forall|j: int|
                            0 <= j < segs.len() ==> seg_in_file(#[trigger] segs[j], file))
                        &&& (forall|j: int, k: int|
                            {
                                &&& 0 <= j < segs.len()
                                &&& 0 <= k < segs[j].fileSize
                                &&& (forall|j2: int|
                                    j < j2 < segs.len() ==> !seg_covers(
                                        #[trigger] segs[j2],
                                        segs[j].vaddr + k,
                                    ))
                            } ==> (#[trigger] final(self).image@[segs[j].vaddr + k - start])
                                == file[segs[j].offset + k])
                        &&& (forall|x: int|
                            {
                                &&& 0 <= x < final(self).image@.len()
                                &&& (forall|j: int|
                                    0 <= j < segs.len() ==> !seg_covers(
                                        #[trigger] segs[j],
                                        start + x,
                                    ))
                            } ==> (#[trigger] final(self).image@[x]) == 0)
                        &&& (forall|j: int, q: u64|
                            0 <= j < segs.len() && seg_vpn_span(q, #[trigger] segs[j]) ==> (
                            #[trigger] translate(post, root, q)) is Some && (translate(
                                pre,
                                root,
                                q,
                            ) is None ==> translate(post, root, q) == Some((q * 0x1000) as u64)))
                        &&& (forall|q: u64|
                            vpn_canonical(q) && (forall|j: int|
                                0 <= j < segs.len() ==> !seg_vpn_span(q, #[trigger] segs[j])) ==> (
                            #[trigger] translate(post, root, q)) == translate(pre, root, q))
                    },
                    Err(e) => {
                        &&& (e is ELFLoadError || e is NoEnoughMemory)
                        &&& ((forall|j: int|
                            0 <= j < segs.len() ==> seg_in_file(#[trigger] segs[j], file)) ==> !(
                        e is ELFLoadError))
                        &&& (e is NoEnoughMemory ==> post.freePool@.len() == 0 && post.next
                            == post.pageCount)
                        &&& *final(self) == *old(self)
                    },
                }
            }),
    {
        let ghost root = vms.pageTables.unwrap().root.0;
        let ghost vms0 = *vms;
        if mr.ptr != self.startAddr.0 {
            return Err(Error::AddressDoesMatch);
        }
        let len = (self.endAddr.0 - self.startAddr.0) as usize;
        let mut image: Vec<u8> = Vec::new();
        let mut z: usize = 0;
        while z < len
            invariant
                z <= len,
                image@.len() == z,
                forall|x: int| 0 <= x < z ==> image@[x] == 0u8,
            decreases len - z,
        {
            image.push(0);
            z = z + 1;
        }
        let flen = self.file.len() as u64;
        let mut j: usize = 0;
        while j < self.segs.len()
            invariant
                vms0 == *old(vms),
                *self == *old(self),
                mr.ptr == self.startAddr.0,
                mr.sz == self.endAddr.0 - self.startAddr.0,
                len == self.endAddr.0 - self.startAddr.0,
                flen <= usize::MAX,
                self.wf(),
                self.startAddr.0 <= self.endAddr.0,
                self.endAddr.0 <= LOWER_TOP,
                self.endAddr.0 - self.startAddr.0 <= usize::MAX,
                flen == self.file@.len(),
                j <= self.segs.len(),
                image@.len() == self.endAddr.0 - self.startAddr.0,
                image@.len() == len,
                vms.wf(),
                vms.pageTables == vms0.pageTables,
                root == vms0.pageTables.unwrap().root.0,
                forall|j1: int| 0 <= j1 < j ==> seg_in_file(#[trigger] self.segs@[j1], self.file@),
                forall|j1: int, k: int|
                    {
                        &&& 0 <= j1 < j
                        &&& 0 <= k < self.segs@[j1].fileSize
                        &&& (forall|j2: int|
                            j1 < j2 < j ==> !seg_covers(
                                #[trigger] self.segs@[j2],
                                self.segs@[j1].vaddr + k,
                            ))
                    } ==> (#[trigger] image@[self.segs@[j1].vaddr + k - self.startAddr.0])
                        == self.file@[self.segs@[j1].offset + k],
                forall|x: int|
                    {
                        &&& 0 <= x < image@.len()
                        &&& (forall|j1: int|
                            0 <= j1 < j ==> !seg_covers(
                                #[trigger] self.segs@[j1],
                                self.startAddr.0 + x,
                            ))
                    } ==> (#[trigger] image@[x]) == 0,
                forall|q: u64|
                    vpn_canonical(q) && (#[trigger] translate(
                        vms0.pagePool.unwrap(),
                        root,
                        q,
                    )) is Some ==> translate(vms.pagePool.unwrap(), root, q) == translate(
                        vms0.pagePool.unwrap(),
                        root,
                        q,
                    ),
                forall|j1: int, q: u64|
                    0 <= j1 < j && seg_vpn_span(q, #[trigger] self.segs@[j1]) ==> (
                    #[trigger] translate(vms.pagePool.unwrap(), root, q)) is Some && (translate(
                        vms0.pagePool.unwrap(),
                        root,
                        q,
                    ) is None ==> translate(vms.pagePool.unwrap(), root, q) == Some(
                        (q * 0x1000) as u64,
                    )),
                forall|q: u64|
                    vpn_canonical(q) && (forall|j1: int|
                        0 <= j1 < j ==> !seg_vpn_span(q, #[trigger] self.segs@[j1])) ==> (
                    #[trigger] translate(vms.pagePool.unwrap(), root, q)) == translate(
                        vms0.pagePool.unwrap(),
                        root,
                        q,
                    ),
            decreases self.segs.len() - j,
        {
            let g = self.segs[j];
            if g.offset > flen || g.fileSize > flen - g.offset {
                return Err(Error::ELFLoadError("segment data lies outside the image file"));
            }
            let tbase = (g.vaddr - self.startAddr.0) as usize;
            proof {
                assert(g.vaddr >= round_down(g.vaddr as int));
                assert(g.vaddr + g.fileSize <= round_up(g.vaddr + g.fileSize));
                assert(tbase + g.fileSize <= image@.len());
            }
            let ghost img0 = image@;
            let mut k: usize = 0;
            let fsz = g.fileSize as usize;
            while k < fsz
                invariant
                    k <= fsz,
                    fsz == g.fileSize,
                    tbase == g.vaddr - self.startAddr.0,
                    tbase + fsz <= image@.len(),
                    image@.len() <= usize::MAX,
                    g.offset + fsz <= self.file@.len(),
                    self.file@.len() <= usize::MAX,
                    g == self.segs@[j as int],
                    *self == *old(self),
                    image@.len() == img0.len(),
                    forall|x: int|
                        0 <= x < image@.len() && !(tbase <= x < tbase + k) ==> (
                        #[trigger] image@[x]) == img0[x],
                    forall|x: int|
                        tbase <= x < tbase + k ==> (#[trigger] image@[x]) == self.file@[g.offset + (
                        x - tbase)],
                decreases fsz - k,
            {
                let b = self.file[g.offset as usize + k];
                image[tbase + k] = b;
                k = k + 1;
            }
            let startMem = match Addr(g.vaddr).RoundDown() {
                Ok(a) => a,
                Err(e) => {
                    return Err(e);
                },
            };
            let vaEnd = match Addr(g.vaddr).AddLen(g.fileSize) {
                Ok(a) => a,
                Err(e) => {
                    return Err(e);
                },
            };
            let endMem = match vaEnd.RoundUp() {
                Ok(a) => a,
                Err(e) => {
                    return Err(e);
                },
            };
            proof {
                crate::addr::lemma_round_down_bounds(g.vaddr);
                assert(startMem.0 < LOWER_TOP);
                assert(endMem.0 <= LOWER_TOP);
            }
            let ghost vpre = *vms;
            match vms.MapRange(startMem, endMem, startMem, &PageOpts::Default()) {
                Ok(_) => {},
                Err(e) => {
                    return Err(e);
                },
            }
            proof {
                lemma_identity_span(startMem.0, endMem.0);
                assert(seg_start_page(g) == startMem.0);
                assert(seg_end_page(g) == endMem.0);
                assert forall|q: u64|
                    vpn_canonical(q) && (forall|j1: int|
                        0 <= j1 < j + 1 ==> !seg_vpn_span(q, #[trigger] self.segs@[j1])) implies (
                #[trigger] translate(vms.pagePool.unwrap(), root, q)) == translate(
                    vms0.pagePool.unwrap(),
                    root,
                    q,
                ) by {
                    assert(!seg_vpn_span(q, self.segs@[j as int]));
                    assert(translate(vms.pagePool.unwrap(), root, q) == translate(
                        vpre.pagePool.unwrap(),
                        root,
                        q,
                    ));
                }
                assert forall|j1: int, q: u64|
                    0 <= j1 < j + 1 && seg_vpn_span(q, #[trigger] self.segs@[j1]) implies (
                #[trigger] translate(vms.pagePool.unwrap(), root, q)) is Some && (translate(
                    vms0.pagePool.unwrap(),
                    root,
                    q,
                ) is None ==> translate(vms.pagePool.unwrap(), root, q) == Some(
                    (q * 0x1000) as u64,
                )) by {
                    lemma_span_canonical(startMem.0, endMem.0, q);
                    if j1 == j as int {
                        if translate(vpre.pagePool.unwrap(), root, q) is Some {
                            if translate(vpre.pagePool.unwrap(), root, q) != translate(
                                vms0.pagePool.unwrap(),
                                root,
                                q,
                            ) {
                                assert(exists|j2: int|
                                    0 <= j2 < j && seg_vpn_span(q, #[trigger] self.segs@[j2]));
                            }
                        }
                    } else {
                        if seg_vpn_span(q, self.segs@[j1]) {
                            lemma_seg_span_canonical(*self, j1, q);
                            if in_span(q, startMem.0, endMem.0) {
                            } else {
                                assert(translate(vms.pagePool.unwrap(), root, q) == translate(
                                    vpre.pagePool.unwrap(),
                                    root,
                                    q,
                                ));
                            }
                        }
                    }
                }
            }
            j = j + 1;
        }
        self.image = image;
        self.mr = Some(mr);
        return Ok(self.entry);
    }
}

/// The pages of a span below the lower canonical top are canonical.
proof fn lemma_span_canonical(start: u64, end: u64, q: u64)
    requires
        end <= LOWER_TOP,
        start <= end,
    ensures
        in_span(q, start, end) ==> vpn_canonical(q),
{
    if in_span(q, start, end) {
        assert(q < 0x8_0000_0000) by (nonlinear_arith)
            requires
                span_first(start) <= q < span_first(start) + span_count(start, end),
                span_first(start) == start / 0x1000,
                span_count(start, end) == ((end as int) - (start as int) + 0xfff) / 0x1000,
                start <= end,
                end <= 0x7fff_ffff_ffff,
        ;
    }
}

/// A page of a segment's span is canonical, given the segment's
/// extent sits below the lower canonical top.
proof fn lemma_seg_span_canonical(k: KernelELF, j1: int, q: u64)
    requires
        k.wf(),
        k.endAddr.0 <= LOWER_TOP,
        0 <= j1 < k.segs@.len(),
        seg_vpn_span(q, k.segs@[j1]),
    ensures
        vpn_canonical(q),
{
    let g = k.segs@[j1];
    lemma_span_canonical(seg_start_page(g), seg_end_page(g), q);
}

/// An identity mapping's target for a page of the span is the page's
/// own base address.
proof fn lemma_identity_span(start: u64, end: u64)
    requires
        (start as int) % (PAGE_SIZE_4K as int) == 0,
    ensures
        forall|q: u64|
            in_span(q, start, end) ==> (#[trigger] span_target(q, start, start)) == ((q
                * 0x1000) as u64),
{
    assert forall|q: u64|
        in_span(q, start, end) implies (#[trigger] span_target(q, start, start)) == ((q
        * 0x1000) as u64) by {
        assert((start as int) + (q - start / 0x1000) * 0x1000 == q * 0x1000) by (nonlinear_arith)
            requires
                (start as int) % 0x1000 == 0,
                q >= start / 0x1000,
        ;
    }
}

} // verus!
