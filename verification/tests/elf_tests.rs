use qvisor::addr::Addr;
use qvisor::common::Error;
use qvisor::elf::KernelELF;
use qvisor::mem::MappedRegion;
use qvisor::pagetable::PagePool;
use qvisor::pagetable::PageTables;
use qvisor::vmspace::VMSpace;

fn put16(b: &mut Vec<u8>, off: usize, v: u16) {
    b[off] = v as u8;
    b[off + 1] = (v >> 8) as u8;
}

fn put32(b: &mut Vec<u8>, off: usize, v: u32) {
    for i in 0..4 {
        b[off + i] = (v >> (8 * i)) as u8;
    }
}

fn put64(b: &mut Vec<u8>, off: usize, v: u64) {
    for i in 0..8 {
        b[off + i] = (v >> (8 * i)) as u8;
    }
}

/// A 64-bit image with one loadable segment: virtual [0x1000, 0x1800),
/// bytes at file offset 120, entry 0x1010.
fn one_segment_image() -> Vec<u8> {
    let mut b = vec![0u8; 120 + 0x800];
    b[0] = 0x7f;
    b[1] = b'E';
    b[2] = b'L';
    b[3] = b'F';
    b[4] = 2; // 64-bit
    put64(&mut b, 24, 0x1010); // entry
    put64(&mut b, 32, 64); // program header table offset
    put16(&mut b, 54, 56); // program header entry size
    put16(&mut b, 56, 1); // one program header
    put32(&mut b, 64, 1); // PT_LOAD
    put64(&mut b, 72, 120); // file offset of segment bytes
    put64(&mut b, 80, 0x1000); // virtual address
    put64(&mut b, 96, 0x800); // file size
    for i in 0..0x800usize {
        b[120 + i] = (i % 251) as u8;
    }
    b
}

fn fresh_vms() -> VMSpace {
    let mut pool = PagePool::Init(Addr(0x100000), 32).unwrap();
    let pt = PageTables::New(&mut pool).unwrap();
    VMSpace { pagePool: Some(pool), pageTables: Some(pt) }
}

#[test]
fn init_computes_the_page_rounded_footprint() {
    let elf = KernelELF::Init(one_segment_image()).unwrap();
    assert_eq!(elf.StartAddr().0, 0x1000);
    assert_eq!(elf.EndAddr().0, 0x2000);
    assert_eq!(elf.entry, 0x1010);
    assert_eq!(elf.segs.len(), 1);
}

#[test]
fn init_rejects_short_files_bad_magic_and_wrong_class() {
    assert!(matches!(KernelELF::Init(vec![0u8; 10]), Err(Error::WrongELFFormat)));
    let mut bad_magic = one_segment_image();
    bad_magic[1] = b'X';
    assert!(matches!(KernelELF::Init(bad_magic), Err(Error::WrongELFFormat)));
    let mut class32 = one_segment_image();
    class32[4] = 1;
    assert!(matches!(KernelELF::Init(class32), Err(Error::WrongELFFormat)));
    let mut truncated_ph = one_segment_image();
    put64(&mut truncated_ph, 32, 0x10_0000); // header table past the file
    assert!(matches!(KernelELF::Init(truncated_ph), Err(Error::WrongELFFormat)));
}

#[test]
fn init_rejects_wrapping_segment_extents() {
    let mut wrap = one_segment_image();
    put64(&mut wrap, 80, u64::MAX - 0x10); // virtual address near the top
    assert!(matches!(KernelELF::Init(wrap), Err(Error::Overflow)));
}

#[test]
fn load_kernel_copies_the_segment_and_maps_it_in_place() {
    let image = one_segment_image();
    let mut elf = KernelELF::Init(image.clone()).unwrap();
    let mut vms = fresh_vms();
    let mr = MappedRegion { ptr: 0x1000, sz: 0x1000 };
    let entry = elf.LoadKernel(mr, &mut vms).unwrap();
    assert_eq!(entry, 0x1010);

    // The byte at the guest entry address equals the source file's byte.
    let start = elf.StartAddr().0;
    assert_eq!(elf.image[(entry - start) as usize], image[120 + 0x10]);
    // The first and last segment bytes were copied too, and the gap
    // after the segment stays zero.
    assert_eq!(elf.image[0], image[120]);
    assert_eq!(elf.image[0x7ff], image[120 + 0x7ff]);
    assert_eq!(elf.image[0x800], 0);

    // The segment's page-rounded extent is identity-mapped.
    let pt = vms.pageTables.as_ref().unwrap();
    let pool = vms.pagePool.as_ref().unwrap();
    assert_eq!(pt.VirtuallToPhy(pool, 0x1010).unwrap(), 0x1010);
    assert_eq!(pt.VirtuallToPhy(pool, 0x1fff).unwrap(), 0x1fff);
    assert!(matches!(pt.VirtuallToPhy(pool, 0x2000), Err(Error::AddressNotMap)));
}

#[test]
fn load_kernel_rejects_a_misplaced_region() {
    let mut elf = KernelELF::Init(one_segment_image()).unwrap();
    let mut vms = fresh_vms();
    let mr = MappedRegion { ptr: 0x9000, sz: 0x1000 };
    assert!(matches!(elf.LoadKernel(mr, &mut vms), Err(Error::AddressDoesMatch)));
}

#[test]
fn load_kernel_rejects_segment_bytes_outside_the_file() {
    let mut img = one_segment_image();
    // Cut the segment data short; the headers stay intact, so parsing
    // still succeeds and only loading notices.
    img.truncate(0x400);
    let mut elf = KernelELF::Init(img).unwrap();
    let mut vms = fresh_vms();
    let mr = MappedRegion { ptr: 0x1000, sz: 0x1000 };
    assert!(matches!(elf.LoadKernel(mr, &mut vms), Err(Error::ELFLoadError(_))));
}
