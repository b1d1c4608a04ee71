//! The VM-wide pairing of a page pool with the page tables built over
//! it, handed by reference into the loader and the control loop.

use vstd::prelude::*;

use crate::addr::Addr;
use crate::addr::PageOpts;
use crate::common::Error;
use crate::pagetable::eff_range;
use crate::pagetable::in_span;
use crate::pagetable::pt_inv;
use crate::pagetable::span_target;
use crate::pagetable::translate;
use crate::pagetable::vpn_canonical;
use crate::pagetable::PagePool;
use crate::pagetable::PageTables;
use crate::pagetable::MAX_PHY_ADDR;
use crate::pagetable::PAGE_SIZE_4K;

verus! {

/// The pool and tables of one virtual machine; both are installed
/// once during setup.
pub struct VMSpace {
    pub pagePool: Option<PagePool>,
    pub pageTables: Option<PageTables>,
}

impl VMSpace {
    /// Whether the pool and tables are installed and form a valid
    /// tree.
    pub open spec fn wf(self) -> bool {
        &&& self.pagePool is Some
        &&& self.pageTables is Some
        &&& pt_inv(self.pagePool.unwrap(), self.pageTables.unwrap().root.0)
    }

    /// Maps `[start, end)` onto the physical run at `physical`
    /// through the installed page tables; see
    /// `PageTables::MapRange` for the clipping and
    /// no-overwrite behaviour.
    pub fn MapRange(
        &mut self,
        start: Addr,
        end: Addr,
        physical: Addr,
        opts: &PageOpts,
    ) -> (r: Result<bool, Error>)
        requires
            old(self).wf(),
            (opts.AccessType.spec_any() && (start.0 as int) % (PAGE_SIZE_4K as int) == 0 && end.0
                >= start.0 && eff_range(start.0, end.0) is Some) ==> ({
                let (es, ee) = eff_range(start.0, end.0).unwrap();
                &&& (physical.0 as int) % (PAGE_SIZE_4K as int) == 0
                &&& physical.0 + (ee - es) <= MAX_PHY_ADDR
                &&& ee <= 0xffff_ffff_ffff_f000
            }),
        ensures
            final(self).wf(),
            final(self).pageTables == old(self).pageTables,
            !opts.AccessType.spec_any() ==> (r matches Ok(b) && b == true && *final(self) == *old(
                self,
            )),
            opts.AccessType.spec_any() && (start.0 as int) % (PAGE_SIZE_4K as int) != 0 ==> (
            r matches Err(e) && e is UnallignedAddress && *final(self) == *old(self)),
            opts.AccessType.spec_any() && (start.0 as int) % (PAGE_SIZE_4K as int) == 0 && end.0
                < start.0 ==> (r matches Err(e) && e is AddressNotInRange && *final(self) == *old(
                self,
            )),
            opts.AccessType.spec_any() && (start.0 as int) % (PAGE_SIZE_4K as int) == 0 && end.0
                >= start.0 && eff_range(start.0, end.0) is None ==> (r matches Ok(b) && b == false
                && *final(self) == *old(self)),
            (opts.AccessType.spec_any() && (start.0 as int) % (PAGE_SIZE_4K as int) == 0 && end.0
                >= start.0 && eff_range(start.0, end.0) is Some) ==> ({
                let (es, ee) = eff_range(start.0, end.0).unwrap();
                let root = old(self).pageTables.unwrap().root.0;
                let pre = old(self).pagePool.unwrap();
                let post = final(self).pagePool.unwrap();
                &&& (forall|q: u64|
                    vpn_canonical(q) && !in_span(q, es, ee) ==> (#[trigger] translate(
                        post,
                        root,
                        q,
                    )) == translate(pre, root, q))
                &&& match r {
                    Ok(prev) => {
                        &&& (forall|q: u64|
                            in_span(q, es, ee) ==> (#[trigger] translate(post, root, q)) == (
                            if translate(pre, root, q) is Some {
                                translate(pre, root, q)
                            } else {
                                Some(span_target(q, es, physical.0))
                            }))
                        &&& prev == (exists|q: u64|
                            in_span(q, es, ee) && (#[trigger] translate(pre, root, q)) is Some)
                    },
                    Err(e) => {
                        &&& e is NoEnoughMemory
                        &&& post.freePool@.len() == 0
                        &&& post.next == post.pageCount
                        &&& (forall|q: u64|
                            vpn_canonical(q) && (#[trigger] translate(pre, root, q)) is Some
                                ==> translate(post, root, q) == translate(pre, root, q))
                    },
                }
            }),
    {
        match (&self.pageTables, &mut self.pagePool) {
            (Some(pt), Some(pool)) => pt.MapRange(start, end, physical, opts, pool),
            _ => Err(Error::NoneIdx),
        }
    }
}

impl Default for VMSpace {
    /// An empty space: neither pool nor tables installed yet.
    fn default() -> (r: Self)
        ensures
            r.pagePool is None,
            r.pageTables is None,
    {
        return VMSpace { pagePool: None, pageTables: None };
    }
}

} // verus!
