//! Page-aligned arithmetic over 64-bit addresses: the leaf component
//! everything else builds on.

use vstd::prelude::*;

use crate::common::Error;

verus! {

pub const PAGE_SIZE: u64 = 0x1000;
pub const ONE_TB: u64 = 0x1_000_000_000;
pub const KERNEL_BASE_ADDR: u64 = 7 * ONE_TB;
pub const KERNEL_ADDR_SIZE: u64 = 128 * ONE_TB;
pub const PHY_MEM_SPACE: u64 = 8 * ONE_TB;
pub const PAGE_MASK: u64 = PAGE_SIZE - 1;

/// `x` rounded down to the page boundary at or below it.
pub open spec fn round_down(x: int) -> int {
    x - x % (PAGE_SIZE as int)
}

/// `x` rounded up to the page boundary at or above it.
pub open spec fn round_up(x: int) -> int {
    round_down(x + PAGE_MASK)
}

/// Requested protection bits for a mapping.
#[derive(Debug, Copy, Clone)]
pub struct AccessType {
    pub Read: bool,
    pub Write: bool,
    pub Exec: bool,
}

impl AccessType {
    /// True when the access requests anything at all; an all-false
    /// access asks for an unmapping instead.
    pub open spec fn spec_any(self) -> bool {
        self.Read || self.Write || self.Exec
    }

    pub fn Any(&self) -> (r: bool)
        ensures
            r == self.spec_any(),
    {
        return self.Read || self.Write || self.Exec;
    }
}

/// Page-level options for a mapping request: protection plus the
/// global and user bits.
#[derive(Debug, Copy, Clone)]
pub struct PageOpts {
    pub AccessType: AccessType,
    pub Global: bool,
    pub User: bool,
}

impl PageOpts {
    /// The full read/write/execute, global, user option set.
    pub fn Default() -> (r: Self)
        ensures
            r.AccessType.Read,
            r.AccessType.Write,
            r.AccessType.Exec,
            r.Global,
            r.User,
    {
        return PageOpts {
            AccessType: AccessType { Read: true, Write: true, Exec: true },
            Global: true,
            User: true,
        };
    }
}

/// A page-addressable 64-bit quantity; arithmetic that would wrap is
/// rejected with an overflow error rather than performed.
#[derive(Debug, Copy, Clone)]
pub struct Addr(pub u64);

impl Addr {
    /// Checked addition: fails with `Overflow` exactly when
    /// `self + len` does not fit in 64 bits, else returns the sum.
    pub fn AddLen(&self, len: u64) -> (r: Result<Addr, Error>)
        ensures
            self.0 + len <= u64::MAX ==> (r matches Ok(a) && a.0 == self.0 + len),
            self.0 + len > u64::MAX ==> (r matches Err(e) && e is Overflow),
    {
        if len <= u64::MAX - self.0 {
            Ok(Addr(self.0 + len))
        } else {
            Err(Error::Overflow)
        }
    }

    /// Rounds down to the page boundary at or below; never fails.
    pub fn RoundDown(&self) -> (r: Result<Addr, Error>)
        ensures
            r matches Ok(a) && a.0 == round_down(self.0 as int),
    {
        proof {
            let x = self.0;
            assert(x & !0xfffu64 == x - (x % 0x1000)) by (bit_vector);
        }
        return Ok(Addr(self.0 & !(PAGE_SIZE - 1)));
    }

    /// Rounds up to the page boundary at or above; fails with
    /// `Overflow` exactly when even the intermediate `self + 0xfff`
    /// would wrap.
    pub fn RoundUp(&self) -> (r: Result<Addr, Error>)
        ensures
            self.0 + PAGE_MASK <= u64::MAX ==> (r matches Ok(a) && a.0 == round_up(self.0 as int)),
            self.0 + PAGE_MASK > u64::MAX ==> (r matches Err(e) && e is Overflow),
    {
        if PAGE_SIZE - 1 <= u64::MAX - self.0 {
            let addr = self.0 + (PAGE_SIZE - 1);
            Addr(addr).RoundDown()
        } else {
            Err(Error::Overflow)
        }
    }

    /// The offset of the address inside its page.
    pub fn PageOffset(&self) -> (r: u64)
        ensures
            r == (self.0 as int) % (PAGE_SIZE as int),
    {
        proof {
            let x = self.0;
            assert(x & 0xfffu64 == x % 0x1000) by (bit_vector);
        }
        return self.0 & (PAGE_SIZE - 1);
    }

    pub fn IsPageAligned(&self) -> (r: bool)
        ensures
            r == ((self.0 as int) % (PAGE_SIZE as int) == 0),
    {
        return self.PageOffset() == 0;
    }

    /// Succeeds exactly on page-aligned addresses; a misaligned one
    /// is rejected with `UnallignedAddress`.
    pub fn PageAligned(&self) -> (r: Result<(), Error>)
        ensures
            (self.0 as int) % (PAGE_SIZE as int) == 0 ==> r is Ok,
            (self.0 as int) % (PAGE_SIZE as int) != 0 ==> (r matches Err(e) && e is UnallignedAddress),
    {
        if !self.IsPageAligned() {
            return Err(Error::UnallignedAddress);
        }
        Ok(())
    }

    /// The address `pageCount` whole pages further on.
    pub fn AddPages(&self, pageCount: u32) -> (r: Addr)
        requires
            self.0 + pageCount * PAGE_SIZE <= u64::MAX,
        ensures
            r.0 == self.0 + pageCount * PAGE_SIZE,
    {
        return Addr(self.0 + pageCount as u64 * PAGE_SIZE);
    }

    /// The page index of `addr` (rounded down) relative to `self`;
    /// fails with `AddressNotInRange` when the rounded address lies
    /// below `self`. The index is truncated to 32 bits.
    pub fn PageOffsetIdx(&self, addr: Addr) -> (r: Result<u32, Error>)
        ensures
            round_down(addr.0 as int) < self.0 ==> (r matches Err(e) && e is AddressNotInRange),
            round_down(addr.0 as int) >= self.0 ==> (r matches Ok(i) && i == ((round_down(
                addr.0 as int,
            ) - self.0) / (PAGE_SIZE as int)) as u32),
    {
        let addr = match addr.RoundDown() {
            Ok(a) => a,
            Err(e) => {
                return Err(e);
            },
        };
        if addr.0 < self.0 {
            return Err(Error::AddressNotInRange);
        }
        return Ok(#[verifier::truncate] (((addr.0 - self.0) / PAGE_SIZE) as u32));
    }

    /// The distance from `startAddr` up to `self`; fails with
    /// `AddressNotInRange` when `self` lies below `startAddr`.
    pub fn Offset(&self, startAddr: Addr) -> (r: Result<Addr, Error>)
        ensures
            self.0 < startAddr.0 ==> (r matches Err(e) && e is AddressNotInRange),
            self.0 >= startAddr.0 ==> (r matches Ok(a) && a.0 == self.0 - startAddr.0),
    {
        if self.0 < startAddr.0 {
            return Err(Error::AddressNotInRange);
        }
        return Ok(Addr(self.0 - startAddr.0));
    }
}

/// A half-open range `[Start, End)` of addresses.
#[derive(Debug, Copy, Clone)]
pub struct AddrRange {
    pub Start: Addr,
    pub End: Addr,
}

impl AddrRange {
    pub fn IsPageAligned(&self) -> (r: bool)
        ensures
            r == ((self.Start.0 as int) % (PAGE_SIZE as int) == 0 && (self.End.0 as int) % (PAGE_SIZE as int) == 0),
    {
        return self.Start.IsPageAligned() && self.End.IsPageAligned();
    }
}

/// A bump allocator over the address range `[start, end)`.
pub struct RangeMgr {
    pub start: Addr,
    pub end: Addr,
    pub offset: Addr,
}

impl RangeMgr {
    /// The bump cursor: the next address that would be handed out.
    pub open spec fn cursor(self) -> u64 {
        self.offset.0
    }

    pub fn Init(start: Addr, len: u64) -> (r: Result<Self, Error>)
        ensures
            start.0 + len <= u64::MAX ==> (r matches Ok(m) && m.start == start && m.end.0 == start.0
                + len && m.cursor() == start.0),
            start.0 + len > u64::MAX ==> (r matches Err(e) && e is Overflow),
    {
        let end = match start.AddLen(len) {
            Ok(a) => a,
            Err(e) => {
                return Err(e);
            },
        };
        return Ok(RangeMgr { start, end, offset: start });
    }

    /// Hands out the next `len` bytes. A misaligned `len` is rejected
    /// as `UnallignedSize`; an aligned request past `end` fails with
    /// `NoEnoughSpace`; otherwise the old cursor is returned and the
    /// cursor advances by `len`.
    pub fn Allocate(&mut self, len: u64) -> (r: Result<Addr, Error>)
        ensures
            (len as int) % (PAGE_SIZE as int) != 0 ==> (r matches Err(e) && e is UnallignedSize
                && *final(self) == *old(self)),
            (len as int) % (PAGE_SIZE as int) == 0 && old(self).cursor() + len > old(self).end.0
                ==> (r matches Err(e) && e is NoEnoughSpace && *final(self) == *old(self)),
            (len as int) % (PAGE_SIZE as int) == 0 && old(self).cursor() + len <= old(self).end.0
                ==> (r matches Ok(a) && a.0 == old(self).cursor() && final(self).cursor() == old(
                self,
            ).cursor() + len && final(self).start == old(self).start && final(self).end == old(
                self,
            ).end),
    {
        proof {
            let x = len;
            assert(x & 0xfffu64 == x % 0x1000) by (bit_vector);
        }
        if len & PAGE_MASK != 0 {
            return Err(Error::UnallignedSize);
        }
        let res = self.offset;
        if len > self.end.0 || self.offset.0 > self.end.0 - len {
            Err(Error::NoEnoughSpace)
        } else {
            self.offset = match self.offset.AddLen(len) {
                Ok(a) => a,
                Err(e) => {
                    return Err(e);
                },
            };
            Ok(res)
        }
    }

    /// Claiming a predefined range is not supported yet; every request
    /// is answered with `RangeUnavailable`.
    pub fn OccupyRange(&self, _offset: u64, _len: u64) -> (r: Result<(), Error>)
        ensures
            r matches Err(e) && e is RangeUnavailable,
    {
        return Err(Error::RangeUnavailable);
    }

    /// Releasing a range is a stub: it reports success and changes
    /// nothing.
    pub fn Free(&mut self, _start: u64, _len: u64) -> (r: Result<(), Error>)
        ensures
            r is Ok,
            *final(self) == *old(self),
    {
        Ok(())
    }
}

/// Both roundings leave a page-aligned address unchanged.
pub proof fn lemma_round_aligned_identity(a: u64)
    requires
        (a as int) % (PAGE_SIZE as int) == 0,
    ensures
        round_down(a as int) == a,
        round_up(a as int) == a,
{
    assert((a + 0xfff) % 0x1000 == 0xfff) by (nonlinear_arith)
        requires
            a % 0x1000 == 0,
    ;
}

/// Rounding down never moves an address by a page or more:
/// `round_down(a) <= a < round_down(a) + PAGE_SIZE`.
pub proof fn lemma_round_down_bounds(a: u64)
    ensures
        round_down(a as int) <= a < round_down(a as int) + PAGE_SIZE,
        round_down(a as int) % (PAGE_SIZE as int) == 0,
{
    assert(round_down(a as int) % (PAGE_SIZE as int) == 0) by (nonlinear_arith);
}

} // verus!
