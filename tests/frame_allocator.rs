use boot_memory::memory::{
    scan_is_admissible, Frame, LinkedListFrameAllocator, Region, RegionKind, FRAME_SIZE,
};

fn usable(start: u64, end: u64) -> Region {
    Region { kind: RegionKind::Usable, start, end }
}

fn drain(a: &mut LinkedListFrameAllocator) -> Vec<u64> {
    let mut out = Vec::new();
    while let Some(f) = a.allocate_frame() {
        out.push(f.start_address());
    }
    out
}

#[test]
fn five_frames_come_out_in_reverse_scan_order() {
    let map = [usable(0x100000, 0x105000)];
    let mut a = LinkedListFrameAllocator::init(0, &map);
    let expected = [0x104000u64, 0x103000, 0x102000, 0x101000, 0x100000];
    for e in expected {
        assert_eq!(a.allocate_frame(), Some(Frame { start: e }));
    }
    assert_eq!(a.allocate_frame(), None);
}

#[test]
fn single_region_is_covered_exactly() {
    let p: u64 = 0x200000;
    let n: u64 = 37;
    let map = [usable(p, p + n * FRAME_SIZE)];
    let mut a = LinkedListFrameAllocator::init(0xffff_8000_0000_0000, &map);
    let mut got = drain(&mut a);
    assert_eq!(got.len() as u64, n);
    for f in &got {
        assert!(*f >= p && *f < p + n * FRAME_SIZE);
    }
    got.sort();
    got.dedup();
    assert_eq!(got.len() as u64, n);
    assert_eq!(a.allocate_frame(), None);
}

#[test]
fn freed_frame_is_next_allocated() {
    let map = [usable(0x100000, 0x104000)];
    let mut a = LinkedListFrameAllocator::init(0x1000_0000, &map);
    let f = a.allocate_frame().unwrap();
    let g = a.allocate_frame().unwrap();
    assert_ne!(f, g);
    a.deallocate_frame(f);
    assert_eq!(a.allocate_frame(), Some(f));
    a.deallocate_frame(g);
    a.deallocate_frame(f);
    assert_eq!(a.allocate_frame(), Some(f));
    assert_eq!(a.allocate_frame(), Some(g));
}

#[test]
fn no_usable_region_gives_no_frame() {
    let map = [
        Region { kind: RegionKind::Reserved, start: 0x0, end: 0x10000 },
        Region { kind: RegionKind::Other, start: 0x10000, end: 0x20000 },
    ];
    let mut a = LinkedListFrameAllocator::init(0, &map);
    for _ in 0..3 {
        assert_eq!(a.allocate_frame(), None);
    }
    let mut empty = LinkedListFrameAllocator::init(0, &[]);
    assert_eq!(empty.allocate_frame(), None);
}

#[test]
fn same_inputs_give_same_frames() {
    let map = [
        usable(0x100000, 0x103000),
        Region { kind: RegionKind::Reserved, start: 0x103000, end: 0x200000 },
        usable(0x200000, 0x202000),
    ];
    let mut a = LinkedListFrameAllocator::init(0x4000_0000, &map);
    let mut b = LinkedListFrameAllocator::init(0x4000_0000, &map);
    let fa = a.allocate_frame().unwrap();
    let fb = b.allocate_frame().unwrap();
    assert_eq!(fa, fb);
    a.deallocate_frame(Frame { start: 0x500000 });
    b.deallocate_frame(Frame { start: 0x500000 });
    assert_eq!(drain(&mut a), drain(&mut b));
}

#[test]
fn regions_are_scanned_in_order() {
    let map = [usable(0x100000, 0x102000), usable(0x300000, 0x302000)];
    let mut a = LinkedListFrameAllocator::init(0, &map);
    assert_eq!(drain(&mut a), vec![0x301000, 0x300000, 0x101000, 0x100000]);
}

#[test]
fn unaligned_region_start_gives_aligned_frames() {
    let map = [usable(0x100800, 0x103000)];
    let mut a = LinkedListFrameAllocator::init(0, &map);
    let got = drain(&mut a);
    assert_eq!(got, vec![0x101000, 0x100000]);
    for f in got {
        assert_eq!(f % FRAME_SIZE, 0);
    }
}

#[test]
fn partial_frames_and_inverted_regions_are_skipped() {
    let map = [usable(0x100000, 0x100fff), usable(0x200000, 0x100000), usable(0x5000, 0x5000)];
    let mut a = LinkedListFrameAllocator::init(0, &map);
    assert_eq!(a.allocate_frame(), None);
}

#[test]
fn scan_limit_caps_frames_per_region() {
    let map = [usable(0x100000, 0x105000), usable(0x200000, 0x201000)];
    let mut a = LinkedListFrameAllocator::init_with_scan_limit(0, &map, Some(2));
    assert_eq!(drain(&mut a), vec![0x200000, 0x101000, 0x100000]);
    let mut b = LinkedListFrameAllocator::init_with_scan_limit(0, &map, Some(0));
    assert_eq!(b.allocate_frame(), None);
    let mut c = LinkedListFrameAllocator::init_with_scan_limit(0, &map, None);
    assert_eq!(drain(&mut c).len(), 6);
}

#[test]
fn offset_conversions() {
    let a = LinkedListFrameAllocator::init(0xffff_8000_0000_0000, &[]);
    assert_eq!(a.physical_memory_offset(), 0xffff_8000_0000_0000);
    assert_eq!(a.phys_to_virt_ptr(0x1234_5000), 0xffff_8000_1234_5000);
    assert_eq!(a.virt_ptr_to_phys(0xffff_8000_1234_5000), 0x1234_5000);
}

#[test]
fn frame_containing_address_rounds_down() {
    assert_eq!(Frame::containing_address(0x100fff).start_address(), 0x100000);
    assert_eq!(Frame::containing_address(0x101000).start_address(), 0x101000);
    assert_eq!(Frame::containing_address(0xfff).start_address(), 0);
}

#[test]
fn admissibility_of_memory_maps() {
    let map = [usable(0x100000, 0x105000)];
    assert!(scan_is_admissible(0, &map, None));
    assert!(scan_is_admissible(u64::MAX - 0x104000, &map, None));
    assert!(!scan_is_admissible(u64::MAX - 0x103fff, &map, None));
    assert!(scan_is_admissible(u64::MAX - 0x101000, &map, Some(2)));
    let high = [usable(0xf_ffff_ffff_f000, 0x10_0000_0000_1000)];
    assert!(!scan_is_admissible(0, &high, None));
    assert!(scan_is_admissible(0, &high, Some(1)));
    let reserved_high = [Region { kind: RegionKind::Reserved, start: 0x10_0000_0000_0000, end: u64::MAX }];
    assert!(scan_is_admissible(u64::MAX, &reserved_high, None));
}
