use qvisor::addr::AccessType;
use qvisor::addr::Addr;
use qvisor::addr::PageOpts;
use qvisor::addr::RangeMgr;
use qvisor::common::Error;

#[test]
fn round_down_and_up_move_to_page_boundaries() {
    assert_eq!(Addr(0x1234).RoundDown().unwrap().0, 0x1000);
    assert_eq!(Addr(0x1234).RoundUp().unwrap().0, 0x2000);
    assert_eq!(Addr(0x1fff).RoundDown().unwrap().0, 0x1000);
    assert_eq!(Addr(0x2001).RoundUp().unwrap().0, 0x3000);
    assert_eq!(Addr(0).RoundDown().unwrap().0, 0);
    assert_eq!(Addr(0).RoundUp().unwrap().0, 0);
}

#[test]
fn rounding_keeps_aligned_addresses() {
    // A page-aligned address is a fixed point of both roundings.
    for a in [0u64, 0x1000, 0x3000, 0x7_ffff_f000] {
        assert_eq!(Addr(a).RoundDown().unwrap().0, a);
        assert_eq!(Addr(a).RoundUp().unwrap().0, a);
    }
}

#[test]
fn round_down_stays_within_one_page() {
    for a in [0u64, 1, 0xfff, 0x1000, 0x1abc, u64::MAX] {
        let d = Addr(a).RoundDown().unwrap().0;
        assert!(d <= a);
        assert!(a - d < 0x1000);
    }
}

#[test]
fn round_up_overflow_is_rejected() {
    assert!(matches!(Addr(u64::MAX).RoundUp(), Err(Error::Overflow)));
    assert!(matches!(Addr(u64::MAX - 0xffe).RoundUp(), Err(Error::Overflow)));
    assert_eq!(Addr(u64::MAX - 0xfff).RoundUp().unwrap().0, u64::MAX - 0xfff);
}

#[test]
fn add_len_is_exact_or_overflows() {
    assert_eq!(Addr(5).AddLen(7).unwrap().0, 12);
    assert_eq!(Addr(u64::MAX - 1).AddLen(1).unwrap().0, u64::MAX);
    assert!(matches!(Addr(u64::MAX).AddLen(1), Err(Error::Overflow)));
    assert!(matches!(Addr(2).AddLen(u64::MAX), Err(Error::Overflow)));
}

#[test]
fn page_offset_and_alignment() {
    assert_eq!(Addr(0x1abc).PageOffset(), 0xabc);
    assert!(Addr(0x2000).IsPageAligned());
    assert!(!Addr(0x2001).IsPageAligned());
    assert!(Addr(0x2000).PageAligned().is_ok());
    assert!(matches!(Addr(0x2001).PageAligned(), Err(Error::UnallignedAddress)));
}

#[test]
fn add_pages_advances_whole_pages() {
    assert_eq!(Addr(0x4000).AddPages(3).0, 0x7000);
    assert_eq!(Addr(0).AddPages(0).0, 0);
}

#[test]
fn page_offset_idx_counts_pages_from_base() {
    let base = Addr(0x10000);
    assert_eq!(base.PageOffsetIdx(Addr(0x13fff)).unwrap(), 3);
    assert_eq!(base.PageOffsetIdx(Addr(0x10000)).unwrap(), 0);
    assert!(matches!(base.PageOffsetIdx(Addr(0xffff)), Err(Error::AddressNotInRange)));
}

#[test]
fn offset_requires_an_address_at_or_after_start() {
    assert_eq!(Addr(0x5000).Offset(Addr(0x2000)).unwrap().0, 0x3000);
    assert!(matches!(Addr(0x1000).Offset(Addr(0x2000)), Err(Error::AddressNotInRange)));
}

#[test]
fn access_type_any_and_default_opts() {
    let none = AccessType { Read: false, Write: false, Exec: false };
    assert!(!none.Any());
    let r = AccessType { Read: true, Write: false, Exec: false };
    assert!(r.Any());
    let d = PageOpts::Default();
    assert!(d.AccessType.Read && d.AccessType.Write && d.AccessType.Exec);
    assert!(d.Global && d.User);
}

#[test]
fn range_mgr_hands_out_page_aligned_lengths() {
    let mut m = RangeMgr::Init(Addr(0x1000), 0x3000).unwrap();
    // A misaligned length is reported as a misaligned size.
    assert!(matches!(m.Allocate(0x800), Err(Error::UnallignedSize)));
    assert!(matches!(m.Allocate(0x1001), Err(Error::UnallignedSize)));
    let a = m.Allocate(0x1000).unwrap();
    assert_eq!(a.0, 0x1000);
    let b = m.Allocate(0x2000).unwrap();
    assert_eq!(b.0, 0x2000);
    assert!(matches!(m.OccupyRange(0, 0x100), Err(Error::RangeUnavailable)));
    assert!(m.Free(0x1000, 0x1000).is_ok());
}

#[test]
fn range_mgr_runs_out_of_space() {
    let mut m = RangeMgr::Init(Addr(0), 0x3000).unwrap();
    m.Allocate(0x1000).unwrap();
    m.Allocate(0x2000).unwrap();
    assert!(matches!(m.Allocate(0x1000), Err(Error::NoEnoughSpace)));
}

#[test]
fn range_mgr_init_overflow() {
    assert!(matches!(RangeMgr::Init(Addr(u64::MAX), 2), Err(Error::Overflow)));
}
