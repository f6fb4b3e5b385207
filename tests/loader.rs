use elf_loader::elf::{entry_point, sections, Dynamic, RelTable};
use elf_loader::loader::{
    got_write, page_copy, plan_sections, relocated, section_pages, stack_pages, vdso_pairs, GotWrite,
    LoadError, Loader, Page, Perm, SectionBytes, StackConfig, Traced, VDSOConfig, MMU,
};
use std::cell::RefCell;
use std::collections::HashMap;

const SHT_PROGBITS: u32 = 1;
const SHT_STRTAB: u32 = 3;
const SHT_NOBITS: u32 = 8;
const SHF_WRITE: u64 = 1;
const SHF_ALLOC: u64 = 2;
const SHF_EXEC: u64 = 4;

struct Sec {
    name: &'static str,
    ty: u32,
    flags: u64,
    addr: u64,
    data: Vec<u8>,
    size: u64,
}

fn sec(name: &'static str, ty: u32, flags: u64, addr: u64, data: Vec<u8>) -> Sec {
    let size = data.len() as u64;
    Sec { name, ty, flags, addr, data, size }
}

fn nobits(name: &'static str, flags: u64, addr: u64, size: u64) -> Sec {
    Sec { name, ty: SHT_NOBITS, flags, addr, data: Vec::new(), size }
}

fn put16(b: &mut Vec<u8>, at: usize, v: u16) {
    b[at..at + 2].copy_from_slice(&v.to_le_bytes());
}
fn put32(b: &mut Vec<u8>, at: usize, v: u32) {
    b[at..at + 4].copy_from_slice(&v.to_le_bytes());
}
fn put64(b: &mut Vec<u8>, at: usize, v: u64) {
    b[at..at + 8].copy_from_slice(&v.to_le_bytes());
}
fn align8(b: &mut Vec<u8>) {
    while b.len() % 8 != 0 {
        b.push(0);
    }
}

/// An ELF64 little-endian image with a null section, `secs`, and a section
/// name table last.
fn build_image(entry: u64, secs: &[Sec]) -> Vec<u8> {
    let mut b = vec![0u8; 64];
    b[0..4].copy_from_slice(&[0x7f, b'E', b'L', b'F']);
    b[4] = 2;
    b[5] = 1;
    b[6] = 1;
    put16(&mut b, 16, 2);
    put16(&mut b, 18, 0xf3);
    put32(&mut b, 20, 1);
    put64(&mut b, 24, entry);
    put16(&mut b, 52, 64);
    put16(&mut b, 58, 64);
    let mut names = vec![0u8];
    let mut name_offs = Vec::new();
    for s in secs {
        name_offs.push(names.len() as u32);
        names.extend_from_slice(s.name.as_bytes());
        names.push(0);
    }
    let shstr_name = names.len() as u32;
    names.extend_from_slice(b".shstrtab\0");
    let mut offs = Vec::new();
    for s in secs {
        align8(&mut b);
        offs.push(b.len() as u64);
        b.extend_from_slice(&s.data);
    }
    align8(&mut b);
    let shstr_off = b.len() as u64;
    b.extend_from_slice(&names);
    align8(&mut b);
    let shoff = b.len();
    let shnum = secs.len() + 2;
    b.resize(shoff + 64 * shnum, 0);
    for (i, s) in secs.iter().enumerate() {
        let h = shoff + 64 * (i + 1);
        put32(&mut b, h, name_offs[i]);
        put32(&mut b, h + 4, s.ty);
        put64(&mut b, h + 8, s.flags);
        put64(&mut b, h + 16, s.addr);
        put64(&mut b, h + 24, offs[i]);
        put64(&mut b, h + 32, s.size);
        put64(&mut b, h + 48, 8);
    }
    let h = shoff + 64 * (secs.len() + 1);
    put32(&mut b, h, shstr_name);
    put32(&mut b, h + 4, SHT_STRTAB);
    put64(&mut b, h + 24, shstr_off);
    put64(&mut b, h + 32, names.len() as u64);
    put64(&mut b, 40, shoff as u64);
    put16(&mut b, 60, shnum as u16);
    put16(&mut b, 62, (shnum - 1) as u16);
    b
}

type WriteLog = &'static RefCell<Vec<(usize, usize, Vec<u8>)>>;

#[derive(Clone, Copy)]
struct MockPage {
    id: usize,
    log: WriteLog,
    zero: &'static [u8; 4096],
}

impl Page for MockPage {
    fn inner(&self) -> &'static [u8; 4096] {
        self.zero
    }
    fn phys_addr(&self) -> usize {
        0x100_0000 + self.id * 4096
    }
    fn write(&mut self, offset: usize, bytes: &[u8]) {
        self.log.borrow_mut().push((self.id, offset, bytes.to_vec()));
    }
}

struct MockMmu {
    next: usize,
    log: WriteLog,
    zero: &'static [u8; 4096],
    allocated: Vec<(usize, Perm)>,
    existing: Vec<(usize, usize, Perm)>,
    table: HashMap<usize, usize>,
}

impl MockMmu {
    fn new() -> MockMmu {
        MockMmu {
            next: 0,
            log: Box::leak(Box::new(RefCell::new(Vec::new()))),
            zero: Box::leak(Box::new([0u8; 4096])),
            allocated: Vec::new(),
            existing: Vec::new(),
            table: HashMap::new(),
        }
    }
}

impl MMU for MockMmu {
    type AllocatedPage = MockPage;
    fn alloc_page(&mut self) -> MockPage {
        self.next += 1;
        MockPage { id: self.next, log: self.log, zero: self.zero }
    }
    fn map(&mut self, page: MockPage, vpn: usize, perm: Perm) {
        self.allocated.push((vpn, perm));
        self.table.insert(vpn, page.phys_addr() >> 12);
    }
    fn map_existing(&mut self, ppn: usize, vpn: usize, perm: Perm) {
        self.existing.push((ppn, vpn, perm));
        self.table.insert(vpn, ppn);
    }
    fn translate(&self, vaddr: usize) -> Option<usize> {
        self.table.get(&(vaddr >> 12)).map(|ppn| (ppn << 12) | (vaddr & 0xfff))
    }
}

/// An MMU that keeps the default `map`.
struct PlainMmu {
    existing: Vec<(usize, usize, Perm)>,
    zero: &'static [u8; 4096],
    log: WriteLog,
}

impl MMU for PlainMmu {
    type AllocatedPage = MockPage;
    fn alloc_page(&mut self) -> MockPage {
        MockPage { id: 7, log: self.log, zero: self.zero }
    }
    fn map_existing(&mut self, ppn: usize, vpn: usize, perm: Perm) {
        self.existing.push((ppn, vpn, perm));
    }
    fn translate(&self, _vaddr: usize) -> Option<usize> {
        None
    }
}

const R: Perm = Perm { r: true, w: false, x: false };
const RW: Perm = Perm { r: true, w: true, x: false };
const RX: Perm = Perm { r: true, w: false, x: true };

fn no_lookup(_n: &[u8]) -> Option<usize> {
    None
}

fn two_section_image() -> Vec<u8> {
    build_image(
        0x1234,
        &[sec(".rodata", SHT_PROGBITS, SHF_ALLOC, 0x1000, vec![0xab; 0x800]), nobits(".bss", SHF_ALLOC | SHF_WRITE, 0x2000, 0x1000)],
    )
}

#[test]
fn two_sections_map_one_page_each() {
    let img = two_section_image();
    let mut mmu = Traced::new(MockMmu::new());
    let r = Loader::load::<MockMmu, fn(&[u8]) -> Option<usize>>(&img, &mut mmu, None, StackConfig::new(0, 0));
    let (l, writes) = r.unwrap();
    assert_eq!(l.entry, 0x1234);
    assert!(writes.is_empty());
    assert_eq!(mmu.inner().allocated, vec![(1, R), (2, RW)]);
    assert!(mmu.inner().existing.is_empty());
    let log = mmu.inner().log.borrow();
    assert_eq!(log.len(), 1);
    assert_eq!(log[0].0, 1);
    assert_eq!(log[0].1, 0);
    assert_eq!(log[0].2, vec![0xab; 0x800]);
}

#[test]
fn entry_point_is_the_header_field() {
    let img = build_image(0xdead_beef_0042, &[]);
    assert_eq!(entry_point(&img), Some(0xdead_beef_0042));
    let mut mmu = Traced::new(MockMmu::new());
    let (l, _) = Loader::load::<MockMmu, fn(&[u8]) -> Option<usize>>(&img, &mut mmu, None, StackConfig::new(0, 0)).unwrap();
    assert_eq!(l.entry, 0xdead_beef_0042);
}

#[test]
fn not_an_image_is_malformed() {
    let mut mmu = Traced::new(MockMmu::new());
    let r = Loader::load::<MockMmu, fn(&[u8]) -> Option<usize>>(b"not an elf image at all, clearly", &mut mmu, None, StackConfig::new(0, 0x1000));
    assert_eq!(r.err(), Some(LoadError::Malformed));
    assert!(mmu.inner().allocated.is_empty());
    assert_eq!(entry_point(b"\x7fELF"), None);
}

#[test]
fn empty_allocated_section_is_rejected() {
    let img = build_image(0, &[sec(".text", SHT_PROGBITS, SHF_ALLOC | SHF_EXEC, 0x1000, vec![])]);
    let mut mmu = Traced::new(MockMmu::new());
    let r = Loader::load::<MockMmu, fn(&[u8]) -> Option<usize>>(&img, &mut mmu, None, StackConfig::new(0, 0x1000));
    assert_eq!(r.err(), Some(LoadError::EmptySection));
    assert!(mmu.inner().allocated.is_empty());
}

#[test]
fn section_past_the_buffer_is_out_of_range() {
    let mut img = build_image(0, &[sec(".data", SHT_PROGBITS, SHF_ALLOC, 0x1000, vec![1; 16])]);
    let secs = sections(&img);
    let h = img.len() - 2 * 64 + 32;
    put64(&mut img, h, 1 << 40);
    assert_eq!(secs.len(), 3);
    let mut mmu = Traced::new(MockMmu::new());
    let r = Loader::load::<MockMmu, fn(&[u8]) -> Option<usize>>(&img, &mut mmu, None, StackConfig::new(0, 0));
    assert_eq!(r.err(), Some(LoadError::OutOfRange));
}

#[test]
fn sections_are_read_in_order() {
    let img = two_section_image();
    let secs = sections(&img);
    assert_eq!(secs.len(), 4);
    assert_eq!(secs[1].name.as_deref(), Some(&b".rodata"[..]));
    assert_eq!(secs[1].addr, 0x1000);
    assert_eq!(secs[1].size, 0x800);
    assert!(!secs[1].nobits);
    assert!(secs[2].nobits);
    assert_eq!(secs[2].flags, SHF_ALLOC | SHF_WRITE);
    let plans = plan_sections(&secs, img.len()).unwrap();
    assert_eq!(plans.len(), 2);
    assert_eq!((plans[0].first_vpn, plans[0].end_vpn, plans[0].perm), (1, 2, R));
    assert_eq!((plans[1].first_vpn, plans[1].end_vpn, plans[1].perm), (2, 3, RW));
    assert_eq!(plans[1].content, None);
    assert_eq!(plans[0].content.map(|c: SectionBytes| (c.addr, c.size)), Some((0x1000, 0x800)));
}

#[test]
fn vdso_splice_maps_existing_pages() {
    let img = two_section_image();
    let mut mmu = Traced::new(MockMmu::new());
    let config = VDSOConfig { start: 0x80000, end: 0x82000, target: 0x10000, lookup: no_lookup };
    let (_, writes) = Loader::load(&img, &mut mmu, Some(config), StackConfig::new(0, 0)).unwrap();
    assert!(writes.is_empty());
    assert_eq!(mmu.inner().existing, vec![(0x80, 0x10, RX), (0x81, 0x11, RX)]);
    assert_eq!(vdso_pairs(0x80000, 0x82000, 0x10000), vec![(0x80, 0x10), (0x81, 0x11)]);
}

#[test]
fn vdso_pairs_round_partial_pages() {
    assert_eq!(vdso_pairs(0x80010, 0x81001, 0x10fff), vec![(0x80, 0x10), (0x81, 0x11)]);
    assert!(vdso_pairs(0x2000, 0x2000, 0).is_empty());
    assert!(vdso_pairs(0x5000, 0x1000, 0).is_empty());
}

#[test]
fn relocated_symbol_value() {
    assert_eq!(relocated(0x80000, 0x10000, 0x80040), Some(0x10040));
    assert_eq!(relocated(0x80000, 0x10000, 0x7ffff), None);
    assert_eq!(relocated(0, usize::MAX, 1), None);
    assert_eq!(
        got_write(0x80000, 0x10000, Some(0x80040), Some(0x5008)),
        Ok(Some(GotWrite { paddr: 0x5008, value: 0x10000 + 0x40 }))
    );
}

#[test]
fn unresolved_symbol_writes_nothing() {
    assert_eq!(got_write(0x80000, 0x10000, None, None), Ok(None));
    assert_eq!(got_write(0x80000, 0x10000, None, Some(0x5000)), Ok(None));
}

#[test]
fn relocation_errors() {
    assert_eq!(got_write(0x80000, 0x10000, Some(0x100), Some(0x5000)), Err(LoadError::SymbolOutsideRegion));
    assert_eq!(got_write(0x80000, 0x10000, Some(0x80000), None), Err(LoadError::Untranslated));
}

fn le64(v: &mut Vec<u8>, x: u64) {
    v.extend_from_slice(&x.to_le_bytes());
}

fn dynamic_image(rel_tag: u64) -> Vec<u8> {
    let mut dynsym = vec![0u8; 24];
    let mut s1 = vec![0u8; 24];
    s1[0..4].copy_from_slice(&1u32.to_le_bytes());
    dynsym.append(&mut s1);
    let dynstr = b"\0vdso_fn\0".to_vec();
    let mut rela = Vec::new();
    le64(&mut rela, 0x3000);
    le64(&mut rela, (1u64 << 32) | 1);
    le64(&mut rela, 0);
    let mut dynamic = Vec::new();
    for (t, v) in [(rel_tag, 0x6000u64), (8, 24), (6, 0x4000), (5, 0x5000), (0, 0)] {
        le64(&mut dynamic, t);
        le64(&mut dynamic, v);
    }
    build_image(
        0x1000,
        &[
            sec(".text", SHT_PROGBITS, SHF_ALLOC | SHF_EXEC, 0x1000, vec![0x13; 0x100]),
            sec(".got", SHT_PROGBITS, SHF_ALLOC | SHF_WRITE, 0x3000, vec![0; 8]),
            sec(".dynsym", 11, SHF_ALLOC, 0x4000, dynsym),
            sec(".dynstr", SHT_STRTAB, SHF_ALLOC, 0x5000, dynstr),
            sec(".rela.dyn", 4, SHF_ALLOC, 0x6000, rela),
            sec(".dynamic", 6, SHF_ALLOC | SHF_WRITE, 0x7000, dynamic),
        ],
    )
}

#[test]
fn relocation_fills_the_slot() {
    let img = dynamic_image(7);
    let mut mmu = Traced::new(MockMmu::new());
    let lookup = |n: &[u8]| if n == b"vdso_fn" { Some(0x80040usize) } else { None };
    let config = VDSOConfig { start: 0x80000, end: 0x82000, target: 0x10000, lookup };
    let (l, writes) = Loader::load(&img, &mut mmu, Some(config), StackConfig::new(0x7000_0000, 0x7000_2000)).unwrap();
    assert_eq!(l.entry, 0x1000);
    let slot = mmu.inner().translate(0x3000).unwrap();
    assert_eq!(writes, vec![GotWrite { paddr: slot, value: 0x10000 + 0x40 }]);
    assert_eq!(mmu.inner().allocated[0], (1, RX));
    assert_eq!(mmu.inner().allocated[1], (3, RW));
    assert_eq!(&mmu.inner().allocated[mmu.inner().allocated.len() - 2..], &[(0x70000, RW), (0x70001, RW)]);
}

#[test]
fn relocation_with_unknown_symbol_is_skipped() {
    let img = dynamic_image(7);
    let mut mmu = Traced::new(MockMmu::new());
    let config = VDSOConfig { start: 0x80000, end: 0x82000, target: 0x10000, lookup: no_lookup };
    let (_, writes) = Loader::load(&img, &mut mmu, Some(config), StackConfig::new(0, 0)).unwrap();
    assert!(writes.is_empty());
}

#[test]
fn implicit_addend_table_is_refused() {
    let img = dynamic_image(17);
    let mut mmu = Traced::new(MockMmu::new());
    let config = VDSOConfig { start: 0x80000, end: 0x82000, target: 0x10000, lookup: no_lookup };
    let r = Loader::load(&img, &mut mmu, Some(config), StackConfig::new(0, 0));
    assert_eq!(r.err(), Some(LoadError::ImplicitAddend));
}

#[test]
fn dynamic_view_reads_tables() {
    let img = dynamic_image(7);
    let secs = sections(&img);
    let d = secs.iter().find(|s| s.name.as_deref() == Some(&b".dynamic"[..])).unwrap();
    let dynv = Dynamic::parse(&img, &secs, d.offset as usize, (d.offset + d.size) as usize).unwrap();
    match &dynv.rel {
        Some(RelTable::RELA(t)) => {
            assert_eq!(t.len(), 1);
            assert_eq!(t[0].offset, 0x3000);
            assert_eq!(t[0].info >> 32, 1);
        },
        _ => panic!("no explicit-addend table"),
    }
    assert_eq!(dynv.resolve_sym(&img, 1), Some(b"vdso_fn".to_vec()));
    assert_eq!(dynv.resolve_sym(&img, 0), Some(Vec::new()));
    assert_eq!(dynv.resolve_sym(&img, 1000), None);
}

#[test]
fn stack_pages_are_read_write() {
    let img = two_section_image();
    let mut mmu = Traced::new(MockMmu::new());
    let stack = StackConfig::new(0x7fff_0800, 0x7fff_3001);
    assert_eq!(stack_pages(&stack), (0x7fff0, 0x7fff4));
    Loader::load::<MockMmu, fn(&[u8]) -> Option<usize>>(&img, &mut mmu, None, stack).unwrap();
    let stack_maps: Vec<_> = mmu.inner().allocated[2..].to_vec();
    assert_eq!(stack_maps, vec![(0x7fff0, RW), (0x7fff1, RW), (0x7fff2, RW), (0x7fff3, RW)]);
}

#[test]
fn default_map_uses_the_page_frame() {
    let img = build_image(0, &[nobits(".bss", SHF_ALLOC | SHF_WRITE, 0x5000, 0x10)]);
    let mut mmu = Traced::new(PlainMmu { existing: Vec::new(), zero: Box::leak(Box::new([0u8; 4096])), log: Box::leak(Box::new(RefCell::new(Vec::new()))) });
    Loader::load::<PlainMmu, fn(&[u8]) -> Option<usize>>(&img, &mut mmu, None, StackConfig::new(0, 0)).unwrap();
    assert_eq!(mmu.inner().existing, vec![(0x1007, 0x5, RW)]);
}

#[test]
fn section_page_ranges() {
    assert_eq!(section_pages(0x1000, 0x800), Ok((1, 2)));
    assert_eq!(section_pages(0x1ff0, 0x20), Ok((1, 3)));
    assert_eq!(section_pages(0x1000, 0), Err(LoadError::EmptySection));
    assert_eq!(section_pages(usize::MAX, 2), Err(LoadError::OutOfRange));
}

#[test]
fn section_straddling_pages_is_copied_in_parts() {
    let data: Vec<u8> = (0..0x20u8).collect();
    let img = build_image(0, &[sec(".data", SHT_PROGBITS, SHF_ALLOC | SHF_WRITE, 0x1ff0, data.clone())]);
    let mut mmu = Traced::new(MockMmu::new());
    Loader::load::<MockMmu, fn(&[u8]) -> Option<usize>>(&img, &mut mmu, None, StackConfig::new(0, 0)).unwrap();
    assert_eq!(mmu.inner().allocated, vec![(1, RW), (2, RW)]);
    let log = mmu.inner().log.borrow();
    assert_eq!(*log, vec![(1, 0xff0, data[..0x10].to_vec()), (2, 0, data[0x10..].to_vec())]);
}

#[test]
fn page_copy_splits_a_section() {
    assert_eq!(page_copy(0x1ff0, 0x100, 0x20, 1), (0xff0, 0x100, 0x10));
    assert_eq!(page_copy(0x1ff0, 0x100, 0x20, 2), (0, 0x110, 0x10));
    assert_eq!(page_copy(0x1000, 0, 0x3000, 2), (0, 0x1000, 0x1000));
}

#[test]
fn misaligned_header_table_is_malformed() {
    let img = two_section_image();
    let shoff = u64::from_le_bytes(img[40..48].try_into().unwrap()) as usize;
    let mut moved = img[..shoff].to_vec();
    moved.push(0);
    moved.extend_from_slice(&img[shoff..]);
    put64(&mut moved, 40, (shoff + 1) as u64);
    let mut mmu = Traced::new(MockMmu::new());
    let r = Loader::load::<MockMmu, fn(&[u8]) -> Option<usize>>(&moved, &mut mmu, None, StackConfig::new(0, 0x1000));
    assert_eq!(r.err(), Some(LoadError::Malformed));
    assert!(mmu.inner().allocated.is_empty());
}

#[test]
fn image_at_an_odd_address_still_loads() {
    let img = two_section_image();
    let mut shifted = vec![0u8];
    shifted.extend_from_slice(&img);
    let secs = sections(&shifted[1..]);
    assert_eq!(secs.len(), 4);
    let mut mmu = Traced::new(MockMmu::new());
    let (l, _) = Loader::load::<MockMmu, fn(&[u8]) -> Option<usize>>(&shifted[1..], &mut mmu, None, StackConfig::new(0, 0)).unwrap();
    assert_eq!(l.entry, 0x1234);
    assert_eq!(mmu.into_inner().allocated, vec![(1, R), (2, RW)]);
}

#[test]
fn entry_needs_an_elf64_header() {
    let img = build_image(0x4321, &[]);
    let mut class32 = img.clone();
    class32[4] = 1;
    assert_eq!(entry_point(&class32), None);
    let mut bad_magic = img.clone();
    bad_magic[1] = b'X';
    assert_eq!(entry_point(&bad_magic), None);
    let mut big_header = img.clone();
    put16(&mut big_header, 52, (img.len() + 1) as u16);
    assert_eq!(entry_point(&big_header), None);
    assert_eq!(entry_point(&img[..63]), None);
    assert_eq!(entry_point(&img), Some(0x4321));
}
