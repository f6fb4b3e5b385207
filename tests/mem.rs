use elf_loader::mem::{PhysAddr, PhysPageNum, VirtAddr, VirtPageNum};

#[test]
fn rounding_brackets_addresses() {
    for a in [0usize, 1, 4095, 4096, 4097, 0x1800, 0x7f_ffff_ffff, usize::MAX] {
        let v = VirtAddr(a);
        assert!(v.floor().number() * 4096 <= a);
        assert!(a as u128 <= v.ceil().number() as u128 * 4096);
        assert!(v.ceil().number() - v.floor().number() <= 1);
        if a < usize::MAX - 4096 {
            assert_eq!(VirtAddr(v.ceil().number() * 4096).floor(), v.ceil());
            assert_eq!(VirtAddr(v.ceil().number() * 4096).ceil(), v.ceil());
        }
    }
    assert_eq!(VirtAddr(0x1001).floor(), VirtPageNum(1));
    assert_eq!(VirtAddr(0x1001).ceil(), VirtPageNum(2));
    assert_eq!(PhysAddr(usize::MAX).ceil(), PhysPageNum(usize::MAX / 4096 + 1));
}

#[test]
fn aligned_addresses_round_to_themselves() {
    for a in [0usize, 4096, 0x80000, 0x82000] {
        assert_eq!(VirtAddr(a).floor(), VirtAddr(a).ceil());
        assert_eq!(VirtAddr(a).floor().number(), a / 4096);
        assert_eq!(PhysAddr(a).floor(), PhysAddr(a).ceil());
        assert_eq!(PhysAddr(a).floor().0, a / 4096);
    }
}

#[test]
fn page_offsets() {
    assert_eq!(PhysAddr(0x12345).page_offset(), 0x345);
    assert_eq!(VirtAddr(0x1000).page_offset(), 0);
    assert_eq!(VirtAddr(0x1fff).page_offset(), 0xfff);
}

#[test]
fn indexes_reassemble() {
    for v in [0usize, 1, 511, 512, 0x12345, 0x7ff_ffff] {
        let i = VirtPageNum(v).indexes();
        assert!(i.iter().all(|x| *x < 512));
        assert_eq!((i[0] << 18) | (i[1] << 9) | i[2], v);
    }
    assert_eq!(VirtPageNum(0x40201).indexes(), [1, 1, 1]);
}

#[test]
fn conversions_truncate_to_address_width() {
    assert_eq!(PhysAddr::from(usize::MAX), PhysAddr((1 << 56) - 1));
    assert_eq!(VirtAddr::from(usize::MAX), VirtAddr((1 << 39) - 1));
    assert_eq!(PhysPageNum::from(usize::MAX), PhysPageNum((1 << 44) - 1));
    assert_eq!(VirtPageNum::from(usize::MAX), VirtPageNum((1 << 27) - 1));
    assert_eq!(usize::from(PhysAddr(0x1234)), 0x1234);
    assert_eq!(usize::from(PhysPageNum(7)), 7);
    assert_eq!(VirtPageNum(9).number(), 9);
}

#[test]
fn pages_and_addresses_convert() {
    assert_eq!(PhysAddr::from(PhysPageNum(0x80)), PhysAddr(0x80000));
    assert_eq!(VirtAddr::from(VirtPageNum(0x11)), VirtAddr(0x11000));
    assert_eq!(PhysPageNum(0x81).addr(), PhysAddr(0x81000));
    assert_eq!(VirtPageNum(0x10).addr(), VirtAddr(0x10000));
    assert_eq!(PhysAddr(0x82000).aligned_page(), PhysPageNum(0x82));
    assert_eq!(VirtAddr(0x3000).aligned_page(), VirtPageNum(3));
}
