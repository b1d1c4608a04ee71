use qvisor::addr::Addr;
use qvisor::common::Error;
use qvisor::pagetable::GuestPagePool;
use qvisor::pagetable::PagePool;

#[test]
fn bump_allocation_is_distinct_and_increasing_until_exhaustion() {
    let mut pool = PagePool::Init(Addr(0x10000), 4).unwrap();
    let mut seen = Vec::new();
    for _ in 0..4 {
        let a = pool.Allocate().unwrap().0;
        assert!(!seen.contains(&a));
        if let Some(&last) = seen.last() {
            assert!(a > last);
        }
        seen.push(a);
    }
    assert_eq!(seen, vec![0x10000, 0x11000, 0x12000, 0x13000]);
    assert!(matches!(pool.Allocate(), Err(Error::NoEnoughMemory)));
}

#[test]
fn freed_page_is_reused_first_in_lifo_order() {
    let mut pool = PagePool::Init(Addr(0x10000), 8).unwrap();
    for _ in 0..4 {
        pool.Allocate().unwrap();
    }
    pool.Free(Addr(0x11000)).unwrap();
    pool.Free(Addr(0x13000)).unwrap();
    // Most recently freed first, and before any page beyond the cursor.
    assert_eq!(pool.Allocate().unwrap().0, 0x13000);
    assert_eq!(pool.Allocate().unwrap().0, 0x11000);
    assert_eq!(pool.Allocate().unwrap().0, 0x14000);
}

#[test]
fn free_rejects_misaligned_and_out_of_pool_addresses() {
    let mut pool = PagePool::Init(Addr(0x10000), 4).unwrap();
    pool.Allocate().unwrap();
    assert!(matches!(pool.Free(Addr(0x10001)), Err(Error::UnallignedAddress)));
    assert!(matches!(pool.Free(Addr(0xf000)), Err(Error::AddressNotInRange)));
    assert!(matches!(pool.Free(Addr(0x20000)), Err(Error::AddressNotInRange)));
}

#[test]
fn page_index_and_address_conversions() {
    let pool = PagePool::Init(Addr(0x10000), 4).unwrap();
    assert_eq!(pool.GetPageIdx(Addr(0x12fff)).unwrap(), 2);
    assert!(matches!(pool.GetPageIdx(Addr(0x1000)), Err(Error::AddressNotInRange)));
    assert_eq!(pool.GetPageAddr(2).unwrap().0, 0x12000);
    assert!(matches!(pool.GetPageAddr(4), Err(Error::AddressNotInRange)));
}

#[test]
fn init_with_para_sets_the_descriptor() {
    let pool = PagePool::InitWithPara(0x40000, 16, 3);
    assert_eq!(pool.baseAddr.0, 0x40000);
    assert_eq!(pool.pageCount, 16);
    assert_eq!(pool.next, 3);
}

#[test]
fn guest_pool_constructs() {
    let _ = GuestPagePool::new();
}
