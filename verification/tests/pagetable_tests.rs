use qvisor::addr::AccessType;
use qvisor::addr::Addr;
use qvisor::addr::PageOpts;
use qvisor::common::Error;
use qvisor::pagetable::PagePool;
use qvisor::pagetable::PageTables;
use qvisor::pagetable::LOWER_TOP;
use qvisor::pagetable::UPPER_BOTTOM;
use qvisor::vmspace::VMSpace;

fn fresh(count: u32) -> (PagePool, PageTables) {
    let mut pool = PagePool::Init(Addr(0x100000), count).unwrap();
    let pt = PageTables::New(&mut pool).unwrap();
    (pool, pt)
}

#[test]
fn new_draws_the_root_from_the_pool() {
    let (pool, pt) = fresh(8);
    assert_eq!(pt.root.0, 0x100000);
    assert_eq!(pool.next, 1);
    let init = PageTables::Init(0xabc000);
    assert_eq!(init.root.0, 0xabc000);
}

#[test]
fn mapped_range_translates_page_by_page() {
    let (mut pool, pt) = fresh(64);
    let prev = pt
        .MapRange(Addr(0x2000), Addr(0x5000), Addr(0x30000), &PageOpts::Default(), &mut pool)
        .unwrap();
    assert!(!prev);
    // Every page-aligned address of [start, end) lands at phys + (v - start).
    assert_eq!(pt.VirtuallToPhy(&pool, 0x2000).unwrap(), 0x30000);
    assert_eq!(pt.VirtuallToPhy(&pool, 0x3000).unwrap(), 0x31000);
    assert_eq!(pt.VirtuallToPhy(&pool, 0x4000).unwrap(), 0x32000);
    // The page offset is carried through.
    assert_eq!(pt.VirtuallToPhy(&pool, 0x4abc).unwrap(), 0x32abc);
    // Outside the mapped range the walk fails.
    assert!(matches!(pt.VirtuallToPhy(&pool, 0x1000), Err(Error::AddressNotMap)));
    assert!(matches!(pt.VirtuallToPhy(&pool, 0x5000), Err(Error::AddressNotMap)));
    assert!(matches!(pt.VirtuallToPhy(&pool, 0x4000_0000), Err(Error::AddressNotMap)));
}

#[test]
fn remapping_a_mapped_page_keeps_the_first_translation() {
    let (mut pool, pt) = fresh(64);
    pt.MapRange(Addr(0x2000), Addr(0x5000), Addr(0x30000), &PageOpts::Default(), &mut pool)
        .unwrap();
    let prev = pt
        .MapRange(Addr(0x3000), Addr(0x4000), Addr(0x70000), &PageOpts::Default(), &mut pool)
        .unwrap();
    // The prior mapping is reported and left in place: first mapping sticks.
    assert!(prev);
    assert_eq!(pt.VirtuallToPhy(&pool, 0x3000).unwrap(), 0x31000);
}

#[test]
fn straddling_request_is_clipped_at_the_canonical_boundary() {
    let (mut pool, pt) = fresh(64);
    let start = 0x7fff_ffff_d000;
    let end = 0x8000_0000_2000;
    let prev = pt
        .MapRange(Addr(start), Addr(end), Addr(0x200000), &PageOpts::Default(), &mut pool)
        .unwrap();
    assert!(!prev);
    // The lower pages up to the boundary are mapped...
    assert_eq!(pt.VirtuallToPhy(&pool, 0x7fff_ffff_d000).unwrap(), 0x200000);
    assert_eq!(pt.VirtuallToPhy(&pool, 0x7fff_ffff_f000).unwrap(), 0x202000);
    // ...and nothing at or above the upper half's bottom was touched.
    assert!(matches!(pt.VirtuallToPhy(&pool, UPPER_BOTTOM), Err(Error::AddressNotMap)));
    assert!(matches!(
        pt.VirtuallToPhy(&pool, 0xffff_8000_0000_1000),
        Err(Error::AddressNotMap)
    ));
}

#[test]
fn straddling_request_with_the_largest_end_is_still_clipped() {
    // Clipping happens before the end is used, so even an end at the
    // very top of the address space is accepted and cut at the lower
    // boundary.
    let (mut pool, pt) = fresh(64);
    let prev = pt
        .MapRange(
            Addr(0x7fff_ffff_e000),
            Addr(u64::MAX),
            Addr(0x400000),
            &PageOpts::Default(),
            &mut pool,
        )
        .unwrap();
    assert!(!prev);
    assert_eq!(pt.VirtuallToPhy(&pool, 0x7fff_ffff_e000).unwrap(), 0x400000);
    assert_eq!(pt.VirtuallToPhy(&pool, 0x7fff_ffff_f000).unwrap(), 0x401000);
    assert!(matches!(pt.VirtuallToPhy(&pool, UPPER_BOTTOM), Err(Error::AddressNotMap)));
}

#[test]
fn request_inside_the_gap_maps_nothing() {
    let (mut pool, pt) = fresh(64);
    let next_before = pool.next;
    let prev = pt
        .MapRange(
            Addr(0x8000_0000_0000),
            Addr(0x8000_0000_3000),
            Addr(0x200000),
            &PageOpts::Default(),
            &mut pool,
        )
        .unwrap();
    assert!(!prev);
    assert_eq!(pool.next, next_before);
}

#[test]
fn gap_request_reaching_the_upper_half_is_clipped_to_it() {
    let (mut pool, pt) = fresh(64);
    let prev = pt
        .MapRange(
            Addr(0x8000_0000_0000),
            Addr(UPPER_BOTTOM + 0x2000),
            Addr(0x300000),
            &PageOpts::Default(),
            &mut pool,
        )
        .unwrap();
    assert!(!prev);
    assert_eq!(pt.VirtuallToPhy(&pool, UPPER_BOTTOM).unwrap(), 0x300000);
    assert_eq!(pt.VirtuallToPhy(&pool, UPPER_BOTTOM + 0x1abc).unwrap(), 0x301abc);
    assert!(matches!(
        pt.VirtuallToPhy(&pool, UPPER_BOTTOM + 0x2000),
        Err(Error::AddressNotMap)
    ));
}

#[test]
fn upper_half_request_maps_in_place() {
    let (mut pool, pt) = fresh(64);
    let prev = pt
        .MapRange(
            Addr(UPPER_BOTTOM),
            Addr(UPPER_BOTTOM + 0x2000),
            Addr(0x40000),
            &PageOpts::Default(),
            &mut pool,
        )
        .unwrap();
    assert!(!prev);
    assert_eq!(pt.VirtuallToPhy(&pool, 0xffff_8000_0000_0abc).unwrap(), 0x40abc);
}

#[test]
fn misaligned_or_reversed_requests_are_rejected() {
    let (mut pool, pt) = fresh(64);
    assert!(matches!(
        pt.MapRange(Addr(0x2001), Addr(0x5000), Addr(0x30000), &PageOpts::Default(), &mut pool),
        Err(Error::UnallignedAddress)
    ));
    assert!(matches!(
        pt.MapRange(Addr(0x5000), Addr(0x2000), Addr(0x30000), &PageOpts::Default(), &mut pool),
        Err(Error::AddressNotInRange)
    ));
}

#[test]
fn no_access_request_is_an_unmap_and_changes_nothing() {
    let (mut pool, pt) = fresh(64);
    pt.MapRange(Addr(0x2000), Addr(0x3000), Addr(0x30000), &PageOpts::Default(), &mut pool)
        .unwrap();
    let opts = PageOpts {
        AccessType: AccessType { Read: false, Write: false, Exec: false },
        Global: false,
        User: false,
    };
    let r = pt.MapRange(Addr(0x2000), Addr(0x3000), Addr(0x30000), &opts, &mut pool).unwrap();
    // The unmap stub reports success without modifying the tables.
    assert!(r);
    assert_eq!(pt.VirtuallToPhy(&pool, 0x2000).unwrap(), 0x30000);
    assert!(pt.Unmap(Addr(0), Addr(0x1000)).unwrap());
}

#[test]
fn pool_exhaustion_fails_the_mapping() {
    let (mut pool, pt) = fresh(3);
    assert!(matches!(
        pt.MapRange(Addr(0x2000), Addr(0x3000), Addr(0x30000), &PageOpts::Default(), &mut pool),
        Err(Error::NoEnoughMemory)
    ));
    // The failure comes exactly from exhaustion: nothing is left to
    // hand out.
    assert_eq!(pool.freePool.len(), 0);
    assert_eq!(pool.next, pool.pageCount);
}

#[test]
fn boundary_constant_values() {
    assert_eq!(LOWER_TOP, 0x7fff_ffff_ffff);
    assert_eq!(UPPER_BOTTOM, 0xffff_8000_0000_0000);
}

#[test]
fn vmspace_forwards_to_the_installed_tables() {
    let (pool, pt) = fresh(64);
    let mut vms = VMSpace { pagePool: Some(pool), pageTables: Some(pt) };
    let prev = vms
        .MapRange(Addr(0x2000), Addr(0x4000), Addr(0x50000), &PageOpts::Default())
        .unwrap();
    assert!(!prev);
    let pt = vms.pageTables.as_ref().unwrap();
    let pool = vms.pagePool.as_ref().unwrap();
    assert_eq!(pt.VirtuallToPhy(pool, 0x3000).unwrap(), 0x51000);
}

#[test]
fn vmspace_default_is_empty() {
    let vms = VMSpace::default();
    assert!(vms.pagePool.is_none());
    assert!(vms.pageTables.is_none());
}
