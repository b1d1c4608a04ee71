//! Host memory region bookkeeping: mapping requests, mapped host
//! regions, and the registry of live regions keyed by guest-physical
//! start address.
//!
//! The host mapping call itself (and its release) belongs to the
//! surrounding application; this module builds the request, checks
//! and registers what came back, and translates guest-physical to
//! host-virtual addresses.

use std::collections::HashMap;

use vstd::prelude::*;

use crate::addr::Addr;
use crate::common::Error;

verus! {

pub const PAGE_SIZE_4K: u64 = 0x1000;
pub const ONE_MB: u64 = 0x100_000;
pub const ONE_GB: u64 = 0x40_000_000;
pub const STACK_SIZE: u64 = 6 * ONE_MB;
pub const STACK_GUARDPAGE_SIZE: u64 = 2 * ONE_MB;
pub const BLOCK_SIZE: u64 = 64 * ONE_GB;
pub const PHY_UPPER_ADDR: u64 = 7 * BLOCK_SIZE;
pub const KERNEL_ADDR_SIZE: u64 = 128 * BLOCK_SIZE;
pub const PHY_MEM_SPACE: u64 = 8 * BLOCK_SIZE;

/// A half-open span of addresses.
pub struct Range {
    pub start: Addr,
    pub end: Addr,
}

/// The file backing of a region, when it has one.
pub struct FileInfo {
    pub offset: Addr,
    pub hostFileName: String,
}

/// One host memory mapping, as the plain values the library reasons
/// about: its host address and size. The application owns the real
/// mapping and releases it exactly once when the region is dropped.
#[derive(Debug)]
pub struct MappedRegion {
    pub sz: u64,
    pub ptr: u64,
}

impl MappedRegion {
    pub fn Start(&self) -> (r: Addr)
        ensures
            r.0 == self.ptr,
    {
        return Addr(self.ptr);
    }

    pub fn End(&self) -> (r: Result<Addr, Error>)
        ensures
            self.ptr + self.sz <= u64::MAX ==> (r matches Ok(a) && a.0 == self.ptr + self.sz),
            self.ptr + self.sz > u64::MAX ==> (r matches Err(e) && e is Overflow),
    {
        return self.Start().AddLen(self.sz);
    }

    pub fn Len(&self) -> (r: u64)
        ensures
            r == self.sz,
    {
        return self.sz;
    }
}

/// An explicit host-mapping request: byte placement, protection bits,
/// and the recognized mapping flags, accumulated by the builder
/// methods below. The application turns a finished request into the
/// real host call.
#[derive(Debug, Copy, Clone)]
pub struct MapOption {
    pub offset: u64,
    pub len: u64,
    pub fd: i32,
    pub fileOffset: u64,
    pub protoRead: bool,
    pub protoWrite: bool,
    pub protoExec: bool,
    pub mapShare: bool,
    pub mapShareValidate: bool,
    pub mapPrivate: bool,
    pub mapAnan: bool,
    pub mapFixed: bool,
    pub mapFixedNoReplace: bool,
    pub mapHugeTLB: bool,
    pub mapLocked: bool,
    pub mapNonBlock: bool,
}

impl MapOption {
    /// A request with no placement, no length, no protection, no
    /// flags, and no backing file.
    pub fn New() -> (r: Self)
        ensures
            r == (MapOption {
                offset: 0,
                len: 0,
                fd: -1i32,
                fileOffset: 0,
                protoRead: false,
                protoWrite: false,
                protoExec: false,
                mapShare: false,
                mapShareValidate: false,
                mapPrivate: false,
                mapAnan: false,
                mapFixed: false,
                mapFixedNoReplace: false,
                mapHugeTLB: false,
                mapLocked: false,
                mapNonBlock: false,
            }),
    {
        return MapOption {
            offset: 0,
            len: 0,
            fd: -1,
            fileOffset: 0,
            protoRead: false,
            protoWrite: false,
            protoExec: false,
            mapShare: false,
            mapShareValidate: false,
            mapPrivate: false,
            mapAnan: false,
            mapFixed: false,
            mapFixedNoReplace: false,
            mapHugeTLB: false,
            mapLocked: false,
            mapNonBlock: false,
        };
    }

    pub fn FileId(self, id: i32) -> (r: Self)
        ensures
            r == (MapOption { fd: id, ..self }),
    {
        MapOption { fd: id, ..self }
    }

    pub fn Offset(self, offset: u64) -> (r: Self)
        ensures
            r == (MapOption { offset, ..self }),
    {
        MapOption { offset, ..self }
    }

    pub fn Len(self, len: u64) -> (r: Self)
        ensures
            r == (MapOption { len, ..self }),
    {
        MapOption { len, ..self }
    }

    pub fn FileOffset(self, offset: u64) -> (r: Self)
        ensures
            r == (MapOption { fileOffset: offset, ..self }),
    {
        MapOption { fileOffset: offset, ..self }
    }

    pub fn ProtoExec(self) -> (r: Self)
        ensures
            r == (MapOption { protoExec: true, ..self }),
    {
        MapOption { protoExec: true, ..self }
    }

    pub fn ProtoRead(self) -> (r: Self)
        ensures
            r == (MapOption { protoRead: true, ..self }),
    {
        MapOption { protoRead: true, ..self }
    }

    pub fn ProtoWrite(self) -> (r: Self)
        ensures
            r == (MapOption { protoWrite: true, ..self }),
    {
        MapOption { protoWrite: true, ..self }
    }

    pub fn MapShare(self) -> (r: Self)
        ensures
            r == (MapOption { mapShare: true, ..self }),
    {
        MapOption { mapShare: true, ..self }
    }

    pub fn MapShareValidate(self) -> (r: Self)
        ensures
            r == (MapOption { mapShareValidate: true, ..self }),
    {
        MapOption { mapShareValidate: true, ..self }
    }

    pub fn MapPrivate(self) -> (r: Self)
        ensures
            r == (MapOption { mapPrivate: true, ..self }),
    {
        MapOption { mapPrivate: true, ..self }
    }

    pub fn MapAnan(self) -> (r: Self)
        ensures
            r == (MapOption { mapAnan: true, ..self }),
    {
        MapOption { mapAnan: true, ..self }
    }

    pub fn MapFixed(self) -> (r: Self)
        ensures
            r == (MapOption { mapFixed: true, ..self }),
    {
        MapOption { mapFixed: true, ..self }
    }

    pub fn MapFixedNoReplace(self) -> (r: Self)
        ensures
            r == (MapOption { mapFixedNoReplace: true, ..self }),
    {
        MapOption { mapFixedNoReplace: true, ..self }
    }

    pub fn MapHugeTLB(self) -> (r: Self)
        ensures
            r == (MapOption { mapHugeTLB: true, ..self }),
    {
        MapOption { mapHugeTLB: true, ..self }
    }

    pub fn MapLocked(self) -> (r: Self)
        ensures
            r == (MapOption { mapLocked: true, ..self }),
    {
        MapOption { mapLocked: true, ..self }
    }

    pub fn MapNonBlock(self) -> (r: Self)
        ensures
            r == (MapOption { mapNonBlock: true, ..self }),
    {
        MapOption { mapNonBlock: true, ..self }
    }
}

/// A host-memory-backed slice of guest-physical address space.
pub struct PhyRegion {
    pub fileInfo: Option<FileInfo>,
    pub hostBaseAddr: Addr,
    pub mr: Box<MappedRegion>,
}

impl PhyRegion {
    /// The region's host mapping starts at or above the manager's
    /// base and its extent is representable.
    pub open spec fn wf(self) -> bool {
        &&& self.hostBaseAddr.0 <= self.mr.ptr
        &&& self.mr.ptr + self.mr.sz <= u64::MAX
    }

    /// The request an anonymous region of `len` bytes is mapped with:
    /// placed at the manager's base, private, anonymous,
    /// read/write/execute, and huge-page-backed on demand.
    pub fn AnanOption(hostBaseAddr: Addr, len: u64, hugePage: bool) -> (r: MapOption)
        ensures
            r.offset == hostBaseAddr.0,
            r.len == len,
            r.mapAnan,
            r.mapPrivate,
            r.protoRead,
            r.protoWrite,
            r.protoExec,
            r.mapHugeTLB == hugePage,
            r.fd == -1,
            !r.mapShare && !r.mapShareValidate && !r.mapFixed && !r.mapFixedNoReplace
                && !r.mapLocked && !r.mapNonBlock,
    {
        let option = MapOption::New().Offset(hostBaseAddr.0).Len(
            len,
        ).MapAnan().MapPrivate().ProtoRead().ProtoWrite().ProtoExec();
        if hugePage {
            return option.MapHugeTLB();
        }
        return option;
    }

    /// Adopts the anonymous host mapping `mr` that the application
    /// obtained for an `AnanOption` request; rejects a mapping whose
    /// end reaches the manager's ceiling.
    pub fn InitAnan(hostBaseAddr: Addr, hostAddrLimit: Addr, len: u64, mr: MappedRegion) -> (r:
        Result<PhyRegion, Error>)
        requires
            mr.sz == len,
            mr.ptr >= hostBaseAddr.0,
        ensures
            mr.ptr + mr.sz > u64::MAX ==> (r matches Err(e) && e is Overflow),
            mr.ptr + mr.sz <= u64::MAX && mr.ptr + mr.sz >= hostAddrLimit.0 ==> (r matches Err(e)
                && e is AddressNotInRange),
            mr.ptr + mr.sz <= u64::MAX && mr.ptr + mr.sz < hostAddrLimit.0 ==> (r matches Ok(g)
                && g.fileInfo is None && g.hostBaseAddr == hostBaseAddr && *g.mr == mr && g.wf()),
    {
        let end = match mr.End() {
            Ok(a) => a,
            Err(e) => {
                return Err(e);
            },
        };
        if end.0 >= hostAddrLimit.0 {
            return Err(Error::AddressNotInRange);
        }
        return Ok(PhyRegion { fileInfo: None, hostBaseAddr: hostBaseAddr, mr: Box::new(mr) });
    }

    pub fn HostStartAddr(&self) -> (r: Addr)
        ensures
            r.0 == self.mr.ptr,
    {
        return self.mr.Start();
    }

    /// The guest-physical start this region is registered under: its
    /// host start relative to the manager's base.
    pub fn PhyStartAddr(&self) -> (r: Addr)
        requires
            self.wf(),
        ensures
            r.0 == self.mr.ptr - self.hostBaseAddr.0,
    {
        match self.mr.Start().Offset(self.hostBaseAddr) {
            Ok(a) => a,
            Err(_) => Addr(0),
        }
    }

    pub fn Len(&self) -> (r: u64)
        ensures
            r == self.mr.sz,
    {
        return self.mr.Len();
    }

    pub fn IsAnan(&self) -> (r: bool)
        ensures
            r == (self.fileInfo is None),
    {
        match self.fileInfo {
            None => true,
            _ => false,
        }
    }
}

/// Registry of live regions keyed by guest-physical start address; no
/// two live regions share a start, and every registered host mapping
/// lies strictly below the ceiling.
pub struct PhyAddrMgr {
    pub hostBaseAddr: Addr,
    pub hostAddrLimit: Addr,
    pub regions: HashMap<u64, Box<PhyRegion>>,
}

impl PhyAddrMgr {
    /// Every registered region is keyed by its own guest-physical
    /// start, shares the manager's base, and stays below the ceiling.
    pub open spec fn wf(self) -> bool {
        forall|k: u64|
            self.regions@.contains_key(k) ==> {
                let g = #[trigger] self.regions@[k];
                &&& g.wf()
                &&& g.hostBaseAddr == self.hostBaseAddr
                &&& k == g.mr.ptr - self.hostBaseAddr.0
                &&& g.mr.ptr + g.mr.sz < self.hostAddrLimit.0
            }
    }

    pub fn Init(hostBaseAddr: Addr, len: u64) -> (r: Result<Self, Error>)
        ensures
            hostBaseAddr.0 + len <= u64::MAX ==> (r matches Ok(m) && m.hostBaseAddr == hostBaseAddr
                && m.hostAddrLimit.0 == hostBaseAddr.0 + len && m.regions@ == Map::<
                u64,
                Box<PhyRegion>,
            >::empty() && m.wf()),
            hostBaseAddr.0 + len > u64::MAX ==> (r matches Err(e) && e is Overflow),
    {
        let hostAddrLimit = match hostBaseAddr.AddLen(len) {
            Ok(a) => a,
            Err(e) => {
                return Err(e);
            },
        };
        return Ok(
            PhyAddrMgr { hostBaseAddr: hostBaseAddr, hostAddrLimit, regions: HashMap::new() },
        );
    }

    /// The request the application should map to back an anonymous
    /// region of `len` bytes for this manager.
    pub fn AllocAnanOption(&self, len: u64, hugePage: bool) -> (r: MapOption)
        ensures
            r.offset == self.hostBaseAddr.0,
            r.len == len,
            r.mapAnan && r.mapPrivate && r.protoRead && r.protoWrite && r.protoExec,
            r.mapHugeTLB == hugePage,
    {
        return PhyRegion::AnanOption(self.hostBaseAddr, len, hugePage);
    }

    /// Registers the anonymous host mapping `mr` obtained for an
    /// `AllocAnanOption(len, ..)` request and returns the
    /// guest-physical start it is now registered under; a mapping
    /// reaching the ceiling is rejected and nothing is registered.
    pub fn AllocAnan(&mut self, len: u64, mr: MappedRegion) -> (r: Result<Addr, Error>)
        requires
            old(self).wf(),
            mr.sz == len,
            mr.ptr >= old(self).hostBaseAddr.0,
        ensures
            final(self).wf(),
            final(self).hostBaseAddr == old(self).hostBaseAddr,
            final(self).hostAddrLimit == old(self).hostAddrLimit,
            mr.ptr + mr.sz > u64::MAX ==> (r matches Err(e) && e is Overflow && final(self).regions@
                == old(self).regions@),
            mr.ptr + mr.sz <= u64::MAX && mr.ptr + mr.sz >= old(self).hostAddrLimit.0 ==> (
            r matches Err(e) && e is AddressNotInRange && final(self).regions@ == old(
                self,
            ).regions@),
            mr.ptr + mr.sz <= u64::MAX && mr.ptr + mr.sz < old(self).hostAddrLimit.0 ==> (
            r matches Ok(a) && a.0 == mr.ptr - old(self).hostBaseAddr.0 && final(self).regions@
                == old(self).regions@.insert(
                a.0,
                Box::new(
                    PhyRegion {
                        fileInfo: None,
                        hostBaseAddr: old(self).hostBaseAddr,
                        mr: Box::new(mr),
                    },
                ),
            )),
    {
        let region = match PhyRegion::InitAnan(self.hostBaseAddr, self.hostAddrLimit, len, mr) {
            Ok(g) => Box::new(g),
            Err(e) => {
                return Err(e);
            },
        };
        let ret = region.PhyStartAddr();
        self.regions.insert(ret.0, region);
        Ok(ret)
    }

    /// The host-virtual start of the region registered at
    /// `phyStartAddr`; fails with `UnmatchRegion` when none is.
    pub fn PhyToHostAddr(&mut self, phyStartAddr: Addr) -> (r: Result<Addr, Error>)
        ensures
            *final(self) == *old(self),
            old(self).regions@.contains_key(phyStartAddr.0) ==> (r matches Ok(a) && a.0 == old(
                self,
            ).regions@[phyStartAddr.0].mr.ptr),
            !old(self).regions@.contains_key(phyStartAddr.0) ==> (r matches Err(e)
                && e is UnmatchRegion),
    {
        if let Some(region) = self.regions.get(&phyStartAddr.0) {
            return Ok(region.HostStartAddr());
        } else {
            return Err(Error::UnmatchRegion);
        }
    }

    /// Removes the region registered at guest-physical `start` if its
    /// length is exactly `len`; a missing region or a length mismatch
    /// fails with `UnmatchRegion` and leaves the registry unchanged.
    /// The application releases the host mapping afterwards.
    pub fn Free(&mut self, start: u64, len: u64) -> (r: Result<(), Error>)
        ensures
            final(self).hostBaseAddr == old(self).hostBaseAddr,
            final(self).hostAddrLimit == old(self).hostAddrLimit,
            !old(self).regions@.contains_key(start) ==> (r matches Err(e) && e is UnmatchRegion
                && final(self).regions@ == old(self).regions@),
            old(self).regions@.contains_key(start) && old(self).regions@[start].mr.sz != len ==> (
            r matches Err(e) && e is UnmatchRegion && final(self).regions@ == old(self).regions@),
            old(self).regions@.contains_key(start) && old(self).regions@[start].mr.sz == len ==> (
            r is Ok && final(self).regions@ == old(self).regions@.remove(start)),
            old(self).wf() ==> final(self).wf(),
    {
        if let Some(region) = self.regions.get(&start) {
            if region.Len() != len {
                return Err(Error::UnmatchRegion);
            }
        } else {
            return Err(Error::UnmatchRegion);
        }

        self.regions.remove(&start);
        Ok(())
    }
}

/// Freeing a region with the matching length removes exactly that
/// entry: a later lookup of the same guest-physical start finds
/// nothing, and every other region is untouched.
pub proof fn lemma_free_removes_region(pre: PhyAddrMgr, post: PhyAddrMgr, start: u64)
    requires
        post.regions@ == pre.regions@.remove(start),
    ensures
        !post.regions@.contains_key(start),
        forall|k: u64|
            k != start ==> (#[trigger] post.regions@.contains_key(k)) == pre.regions@.contains_key(
                k,
            ),
        forall|k: u64|
            k != start && pre.regions@.contains_key(k) ==> (#[trigger] post.regions@[k])
                == pre.regions@[k],
{
}

} // verus!
