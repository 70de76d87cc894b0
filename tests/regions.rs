use k5::mpu::{region_program, region_slot};
use k5::regions::{Region, RegionAttr, RegionAttrs, RegionTable};

fn table(regions: &[Region]) -> RegionTable {
    RegionTable::from_regions(&regions.to_vec())
}

fn none() -> RegionAttrs {
    RegionAttrs::default()
}

fn write() -> RegionAttrs {
    RegionAttrs::of(RegionAttr::Write)
}

#[test]
fn test_insert_region() {
    let mut t = table(&[Region::new(0, 200, none())]);
    t.push(Region::new(20, 50, write())).unwrap();
    assert_eq!(
        t.regions(),
        vec![Region::new(0, 20, none()), Region::new(20, 50, write()), Region::new(50, 200, none())]
    );
    let mut t = table(&[Region::new(0, 30, none())]);
    t.push(Region::new(20, 50, write())).unwrap();
    assert_eq!(t.regions(), vec![Region::new(0, 20, none()), Region::new(20, 50, write())]);
    let mut t = table(&[Region::new(0, 50, none()), Region::new(50, 100, none())]);
    t.push(Region::new(20, 60, write())).unwrap();
    assert_eq!(
        t.regions(),
        vec![Region::new(0, 20, none()), Region::new(20, 60, write()), Region::new(60, 100, none())]
    );
    let mut t = table(&[Region::new(0, 50, none()), Region::new(90, 100, none())]);
    t.push(Region::new(60, 80, write())).unwrap();
    assert_eq!(
        t.regions(),
        vec![Region::new(0, 50, none()), Region::new(60, 80, write()), Region::new(90, 100, none())]
    )
}

#[test]
fn test_pop_region() {
    let mut t = table(&[Region::new(0, 20, none()), Region::new(20, 50, write()), Region::new(50, 200, none())]);
    t.pop(Region::new(20, 50, write()));
    assert_eq!(t.regions(), vec![Region::new(0, 200, none())]);
    let mut t = table(&[Region::new(0, 10, none()), Region::new(20, 50, write()), Region::new(50, 200, none())]);
    t.pop(Region::new(20, 50, write()));
    assert_eq!(t.regions(), vec![Region::new(0, 10, none()), Region::new(50, 200, none())]);
}

#[test]
fn pop_of_absent_region_changes_nothing() {
    let mut t = table(&[Region::new(0, 10, none())]);
    t.pop(Region::new(0, 10, write()));
    assert_eq!(t.regions(), vec![Region::new(0, 10, none())]);
}

#[test]
fn push_overflow_leaves_table() {
    let mut regions = Vec::new();
    for i in 0..8 {
        regions.push(Region::new(i * 100, i * 100 + 50, none()));
    }
    let mut t = table(&regions);
    // splitting the first region would need nine regions
    let r = t.push(Region::new(10, 20, write()));
    assert_eq!(r, Err(k5::KernelError::ABI(k5::abi::Error::BufferOverflow)));
    assert_eq!(t.regions(), regions);
    // replacing a whole region fits
    t.push(Region::new(0, 50, write())).unwrap();
    assert_eq!(t.regions()[0], Region::new(0, 50, write()));
    assert_eq!(t.len(), 8);
}

#[test]
fn push_empty_region_is_noop() {
    let mut t = table(&[Region::new(0, 10, none())]);
    t.push(Region::new(5, 5, write())).unwrap();
    assert_eq!(t.regions(), vec![Region::new(0, 10, none())]);
}

#[test]
fn push_covering_several_regions() {
    let mut t = table(&[Region::new(0, 10, none()), Region::new(10, 20, write()), Region::new(30, 40, none())]);
    t.push(Region::new(5, 35, write())).unwrap();
    assert_eq!(
        t.regions(),
        vec![Region::new(0, 5, none()), Region::new(5, 35, write()), Region::new(35, 40, none())]
    );
}

#[test]
fn permits_needs_one_region_and_attributes() {
    let rw = RegionAttrs::of(RegionAttr::Read).with(RegionAttr::Write);
    let t = table(&[Region::new(0, 100, rw), Region::new(100, 200, RegionAttrs::of(RegionAttr::Read))]);
    assert!(t.permits(10, 90, RegionAttrs::of(RegionAttr::Write)));
    assert!(!t.permits(10, 91, RegionAttrs::of(RegionAttr::Read)));
    assert!(t.permits(100, 100, RegionAttrs::of(RegionAttr::Read)));
    assert!(!t.permits(120, 4, RegionAttrs::of(RegionAttr::Write)));
    assert!(!t.permits(usize::MAX, 2, RegionAttrs::empty()));
    assert!(!t.permits(0xE000_ED00, 4, RegionAttrs::of(RegionAttr::Read)));
}

#[test]
fn carve_removes_loaned_range() {
    let rw = RegionAttrs::of(RegionAttr::Read).with(RegionAttr::Write);
    let mut t = table(&[Region::new(0, 100, rw)]);
    t.carve(40, 60).unwrap();
    assert_eq!(t.regions(), vec![Region::new(0, 40, rw), Region::new(60, 100, rw)]);
    assert!(!t.permits(40, 1, RegionAttrs::empty()));
    t.push(Region::new(40, 60, rw)).unwrap();
    assert_eq!(t.regions(), vec![Region::new(0, 40, rw), Region::new(40, 60, rw), Region::new(60, 100, rw)]);
}

#[test]
fn attribute_sets() {
    let a = RegionAttrs::empty().with(RegionAttr::Exec).with(RegionAttr::Dma);
    assert!(a.contains(RegionAttr::Exec));
    assert!(a.contains(RegionAttr::Dma));
    assert!(!a.contains(RegionAttr::Read));
    assert!(a.contains_all(RegionAttrs::of(RegionAttr::Dma)));
    assert!(!a.contains_all(RegionAttrs::of(RegionAttr::Write)));
}

#[test]
fn mpu_slot_words() {
    let rx = RegionAttrs::of(RegionAttr::Read).with(RegionAttr::Exec);
    let s = region_slot(2, &Region::new(0x2000_0000, 0x2000_1000, rx));
    assert_eq!(s.rnr, 2);
    // executable, read-only, not shared
    assert_eq!(s.rbar, 0x2000_0000 | (0b11 << 1));
    assert_eq!(s.rlar, 0x2000_1000 | (2 << 1) | 1);
    let dev = RegionAttrs::of(RegionAttr::Device).with(RegionAttr::Write);
    let s = region_slot(0, &Region::new(0x4000_0000, 0x4000_0400, dev));
    // execute-never, read/write, outer shareable
    assert_eq!(s.rbar, 1 | (0b01 << 1) | (0b10 << 3) | 0x4000_0000);
}

#[test]
fn mpu_program_memory_types() {
    let rw = RegionAttrs::of(RegionAttr::Read).with(RegionAttr::Write);
    let dma = RegionAttrs::of(RegionAttr::Dma);
    let dev = RegionAttrs::of(RegionAttr::Device);
    let t = table(&[Region::new(0, 32, rw), Region::new(32, 64, dma), Region::new(64, 96, dev)]);
    let p = region_program(&t);
    assert_eq!(p.slots.len(), 8);
    for s in &p.slots[3..] {
        assert_eq!(s.rlar & 1, 0);
    }
    assert_eq!(p.mair0, 0x77 | (0x44 << 8));
    assert_eq!(p.mair1, 0);
    assert_eq!(p.slots[1].rnr, 1);
}
