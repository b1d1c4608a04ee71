use qvisor::addr::Addr;
use qvisor::common::Error;
use qvisor::mem::MapOption;
use qvisor::mem::MappedRegion;
use qvisor::mem::PhyAddrMgr;
use qvisor::mem::PhyRegion;

#[test]
fn map_option_builder_accumulates_fields() {
    let o = MapOption::New();
    assert_eq!(o.offset, 0);
    assert_eq!(o.len, 0);
    assert_eq!(o.fd, -1);
    assert!(!o.protoRead && !o.protoWrite && !o.protoExec);
    let o = MapOption::New()
        .Offset(0x5000)
        .Len(0x2000)
        .FileId(7)
        .FileOffset(0x100)
        .MapAnan()
        .MapPrivate()
        .ProtoRead()
        .ProtoWrite()
        .ProtoExec()
        .MapFixed();
    assert_eq!(o.offset, 0x5000);
    assert_eq!(o.len, 0x2000);
    assert_eq!(o.fd, 7);
    assert_eq!(o.fileOffset, 0x100);
    assert!(o.mapAnan && o.mapPrivate && o.mapFixed);
    assert!(o.protoRead && o.protoWrite && o.protoExec);
    assert!(!o.mapShare && !o.mapShareValidate && !o.mapHugeTLB);
    let o = MapOption::New().MapShare().MapShareValidate().MapHugeTLB().MapLocked().MapNonBlock().MapFixedNoReplace();
    assert!(o.mapShare && o.mapShareValidate && o.mapHugeTLB);
    assert!(o.mapLocked && o.mapNonBlock && o.mapFixedNoReplace);
}

#[test]
fn mapped_region_extent() {
    let mr = MappedRegion { ptr: 0x4000, sz: 0x1000 };
    assert_eq!(mr.Start().0, 0x4000);
    assert_eq!(mr.End().unwrap().0, 0x5000);
    assert_eq!(mr.Len(), 0x1000);
    let huge = MappedRegion { ptr: u64::MAX, sz: 2 };
    assert!(matches!(huge.End(), Err(Error::Overflow)));
}

#[test]
fn anan_option_requests_an_rwx_private_anonymous_mapping() {
    let o = PhyRegion::AnanOption(Addr(0x7000_0000), 0x4000, false);
    assert_eq!(o.offset, 0x7000_0000);
    assert_eq!(o.len, 0x4000);
    assert!(o.mapAnan && o.mapPrivate);
    assert!(o.protoRead && o.protoWrite && o.protoExec);
    assert!(!o.mapHugeTLB);
    let o = PhyRegion::AnanOption(Addr(0x7000_0000), 0x4000, true);
    assert!(o.mapHugeTLB);
}

#[test]
fn init_anan_checks_the_ceiling() {
    let base = Addr(0x1000_0000);
    let limit = Addr(0x2000_0000);
    let mr = MappedRegion { ptr: 0x1000_2000, sz: 0x4000 };
    let g = PhyRegion::InitAnan(base, limit, 0x4000, mr).unwrap();
    assert!(g.IsAnan());
    assert_eq!(g.HostStartAddr().0, 0x1000_2000);
    assert_eq!(g.PhyStartAddr().0, 0x2000);
    assert_eq!(g.Len(), 0x4000);

    let over = MappedRegion { ptr: 0x1fff_f000, sz: 0x4000 };
    assert!(matches!(
        PhyRegion::InitAnan(base, limit, 0x4000, over),
        Err(Error::AddressNotInRange)
    ));
}

#[test]
fn registry_allocates_looks_up_and_frees_by_phys_start() {
    let mut mgr = PhyAddrMgr::Init(Addr(0x1000_0000), 0x1000_0000).unwrap();
    let opt = mgr.AllocAnanOption(0x4000, false);
    assert_eq!(opt.offset, 0x1000_0000);
    assert_eq!(opt.len, 0x4000);

    let mr = MappedRegion { ptr: 0x1000_2000, sz: 0x4000 };
    let phys = mgr.AllocAnan(0x4000, mr).unwrap();
    assert_eq!(phys.0, 0x2000);
    assert_eq!(mgr.PhyToHostAddr(Addr(0x2000)).unwrap().0, 0x1000_2000);
    assert!(matches!(mgr.PhyToHostAddr(Addr(0x3000)), Err(Error::UnmatchRegion)));

    // A length mismatch fails and leaves the registry unchanged.
    assert!(matches!(mgr.Free(0x2000, 0x5000), Err(Error::UnmatchRegion)));
    assert_eq!(mgr.PhyToHostAddr(Addr(0x2000)).unwrap().0, 0x1000_2000);

    // A matching free removes the entry; a later lookup fails.
    mgr.Free(0x2000, 0x4000).unwrap();
    assert!(matches!(mgr.PhyToHostAddr(Addr(0x2000)), Err(Error::UnmatchRegion)));
    assert!(matches!(mgr.Free(0x2000, 0x4000), Err(Error::UnmatchRegion)));
}

#[test]
fn registry_rejects_mappings_past_the_ceiling() {
    let mut mgr = PhyAddrMgr::Init(Addr(0x1000_0000), 0x10_0000).unwrap();
    let mr = MappedRegion { ptr: 0x100f_e000, sz: 0x4000 };
    assert!(matches!(mgr.AllocAnan(0x4000, mr), Err(Error::AddressNotInRange)));
    assert!(matches!(mgr.PhyToHostAddr(Addr(0xfe000)), Err(Error::UnmatchRegion)));
}

#[test]
fn registry_init_overflow() {
    assert!(matches!(PhyAddrMgr::Init(Addr(u64::MAX), 2), Err(Error::Overflow)));
}
