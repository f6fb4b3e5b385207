//! The loader: the pages an image needs, the splice of the shared runtime
//! region, its relocation fix-ups and the stack, applied through an [`MMU`].
use vstd::prelude::*;
use vstd::slice::slice_subrange;
use crate::mem::{PhysAddr, VirtAddr, PAGE_SIZE, floor_page, ceil_page};
use crate::elf::{
    SectionInfo, Dynamic, RelTable, Rela, sections, sections_of, entry_point, entry_of, shoff_aligned,
    shoff_is_aligned, parse_ok, parsed_from, dyn_find, cstr_end, table_offset, rela_entries, DT_RELA, DT_REL,
    DT_RELASZ, DT_SYMTAB, DT_STRTAB,
};

verus! {

/// An allocated page, owned by an MMU until it is handed to [`MMU::map`].
pub trait Page: Clone + Copy {
    /// The page's backing bytes.
    fn inner(&self) -> &'static [u8; 4096];

    /// Physical byte address of the page's first byte: the model of
    /// [`Page::phys_addr`]. An implementation verified with Verus defines it;
    /// the default is an unspecified value that no proof here reveals.
    #[verifier::opaque]
    closed spec fn frame(&self) -> usize {
        arbitrary()
    }

    /// Physical byte address of the page's first byte.
    fn phys_addr(&self) -> (r: usize)
        ensures
            r == self.frame(),
    ;

    /// Writes `bytes` into the page from byte `offset` on.
    fn write(&mut self, offset: usize, bytes: &[u8])
        requires
            offset + bytes@.len() <= PAGE_SIZE,
    ;
}

/// Mapping permission. An MMU may add further bits of its own (a user bit).
#[derive(Clone, Copy, Debug, PartialEq, Eq, Structural)]
pub struct Perm {
    pub r: bool,
    pub w: bool,
    pub x: bool,
}

/// The physical address that mappings `m` (virtual page to physical page
/// and permission) give to virtual address `vaddr`: `None` where its page is
/// not mapped or the address leaves `usize`.
pub open spec fn translation(m: Map<int, (int, Perm)>, vaddr: int) -> Option<usize> {
    let vpn = vaddr / PAGE_SIZE as int;
    if m.contains_key(vpn) && 0 <= m[vpn].0 * PAGE_SIZE + vaddr % PAGE_SIZE as int <= usize::MAX {
        Some((m[vpn].0 * PAGE_SIZE + vaddr % PAGE_SIZE as int) as usize)
    } else {
        None
    }
}

/// An MMU instance: allocation of pages, mapping and translation. Its state
/// is modelled by the mappings it holds, from virtual page to physical page
/// and permission.
pub trait MMU {
    /// The type of an allocated page.
    type AllocatedPage: Page;

    /// The mappings installed, by virtual page number. An implementation
    /// verified with Verus defines it (the default, an unspecified value that
    /// no proof here reveals, cannot meet the methods' contracts).
    #[verifier::opaque]
    closed spec fn mappings(&self) -> Map<int, (int, Perm)> {
        arbitrary()
    }

    /// Allocates a page. The mappings stay as they are.
    fn alloc_page(&mut self) -> (r: Self::AllocatedPage)
        ensures
            final(self).mappings() == old(self).mappings(),
    ;

    /// Maps an allocated page at virtual page `vpn`: the page's own physical
    /// page, through [`MMU::map_existing`].
    fn map(&mut self, page: Self::AllocatedPage, vpn: usize, perm: Perm)
        ensures
            final(self).mappings() == old(self).mappings().insert(vpn as int, (floor_page(page.frame() as int), perm)),
    {
        let ppn = PhysAddr(page.phys_addr()).floor().0;
        self.map_existing(ppn, vpn, perm)
    }

    /// Maps the pre-existing physical page `ppn` at virtual page `vpn`.
    fn map_existing(&mut self, ppn: usize, vpn: usize, perm: Perm)
        ensures
            final(self).mappings() == old(self).mappings().insert(vpn as int, (ppn as int, perm)),
    ;

    /// The physical address behind a virtual address, if it is mapped.
    fn translate(&self, vaddr: usize) -> (r: Option<usize>)
        ensures
            r == translation(self.mappings(), vaddr as int),
    ;
}

/// Where the shared runtime region lies and where it goes.
pub struct VDSOConfig<F> {
    /// Start of the region, physical.
    pub start: usize,
    /// End of the region, physical.
    pub end: usize,
    /// Start of the region in the new address space, virtual.
    pub target: usize,
    /// Physical address of a symbol of the region, by name.
    pub lookup: F,
}

/// The stack of the new address space: virtual range `[start, end)`.
pub struct StackConfig {
    pub start: usize,
    pub end: usize,
}

impl StackConfig {
    pub fn new(start: usize, end: usize) -> (r: StackConfig)
        ensures
            r.start == start,
            r.end == end,
    {
        StackConfig { start, end }
    }
}

/// A loaded image: where execution starts.
pub struct Loader {
    pub entry: usize,
}

/// A word to store at a physical address: a resolved global offset table slot.
#[derive(Clone, Copy, Debug, PartialEq, Eq, Structural)]
pub struct GotWrite {
    pub paddr: usize,
    pub value: usize,
}

/// Why an image could not be loaded.
#[derive(Clone, Copy, Debug, PartialEq, Eq, Structural)]
pub enum LoadError {
    /// The buffer is no ELF64 image.
    Malformed,
    /// A section that occupies memory has size zero.
    EmptySection,
    /// A section's range, or its bytes in the file, lie beyond the address space or the buffer.
    OutOfRange,
    /// The relocation table holds implicit-addend entries.
    ImplicitAddend,
    /// A resolved symbol lies below the start of the shared region.
    SymbolOutsideRegion,
    /// A relocated slot is not mapped.
    Untranslated,
}

pub const SHF_WRITE: u64 = 0x1;
pub const SHF_ALLOC: u64 = 0x2;
pub const SHF_EXECINSTR: u64 = 0x4;

/// Permission of the pages of a section with the given flags: always
/// readable, writable and executable as the flags say.
pub open spec fn section_perm_spec(flags: u64) -> Perm {
    Perm { r: true, w: flags & SHF_WRITE != 0, x: flags & SHF_EXECINSTR != 0 }
}

/// Permission of the shared runtime region.
pub open spec fn vdso_perm_spec() -> Perm {
    Perm { r: true, w: false, x: true }
}

/// Permission of the stack.
pub open spec fn stack_perm_spec() -> Perm {
    Perm { r: true, w: true, x: false }
}

/// The virtual pages `[floor(addr), ceil(addr + size))` of a section.
pub open spec fn section_pages_spec(addr: int, size: int) -> (int, int) {
    (floor_page(addr), ceil_page(addr + size))
}

/// The mapping of the shared region, page by page: physical page
/// `floor(start) + i` goes to virtual page `floor(target) + i`.
pub open spec fn vdso_pairs_spec(start: int, end: int, target: int) -> Seq<(int, int)> {
    let n = if ceil_page(end) > floor_page(start) { ceil_page(end) - floor_page(start) } else { 0 };
    Seq::new(n as nat, |i: int| (floor_page(start) + i, floor_page(target) + i))
}

/// Virtual address of a symbol found at physical `at` in the region that
/// starts at `start` and is placed at virtual `target`.
pub open spec fn relocated_spec(start: int, target: int, at: int) -> int {
    target + (at - start)
}

pub fn section_perm(flags: u64) -> (r: Perm)
    ensures
        r == section_perm_spec(flags),
{
    Perm { r: true, w: flags & SHF_WRITE != 0, x: flags & SHF_EXECINSTR != 0 }
}

pub fn vdso_perm() -> (r: Perm)
    ensures
        r == vdso_perm_spec(),
{
    Perm { r: true, w: false, x: true }
}

pub fn stack_perm() -> (r: Perm)
    ensures
        r == stack_perm_spec(),
{
    Perm { r: true, w: true, x: false }
}

/// The virtual page range of a section: `Err(EmptySection)` when it has
/// size zero, `Err(OutOfRange)` when its end lies beyond `usize`.
pub fn section_pages(addr: usize, size: usize) -> (r: Result<(usize, usize), LoadError>)
    ensures
        size == 0 ==> r == Err::<(usize, usize), LoadError>(LoadError::EmptySection),
        size != 0 && addr + size > usize::MAX ==> r == Err::<(usize, usize), LoadError>(LoadError::OutOfRange),
        size != 0 && addr + size <= usize::MAX ==> (r matches Ok(p)
            && (p.0 as int, p.1 as int) == section_pages_spec(addr as int, size as int)),
{
    if size == 0 {
        return Err(LoadError::EmptySection);
    }
    if addr > usize::MAX - size {
        return Err(LoadError::OutOfRange);
    }
    let lo = VirtAddr(addr).floor().number();
    let hi = VirtAddr(addr + size).ceil().number();
    Ok((lo, hi))
}

/// The virtual page range of the stack `[floor(start), ceil(end))`.
pub fn stack_pages(stack: &StackConfig) -> (r: (usize, usize))
    ensures
        r.0 as int == floor_page(stack.start as int),
        r.1 as int == ceil_page(stack.end as int),
{
    (VirtAddr(stack.start).floor().number(), VirtAddr(stack.end).ceil().number())
}

/// The pairs (physical page, virtual page) that splice the shared region
/// `[start, end)` in at virtual address `target`, in order.
pub fn vdso_pairs(start: usize, end: usize, target: usize) -> (r: Vec<(usize, usize)>)
    ensures
        r@.len() == vdso_pairs_spec(start as int, end as int, target as int).len(),
        forall|i: int| 0 <= i < r@.len() ==>
            (r@[i].0 as int, r@[i].1 as int) == #[trigger] vdso_pairs_spec(start as int, end as int, target as int)[i],
{
    let first_ppn = PhysAddr(start).floor().0;
    let end_ppn = PhysAddr(end).ceil().0;
    let first_vpn = VirtAddr(target).floor().0;
    let mut r: Vec<(usize, usize)> = Vec::new();
    let mut ppn: usize = first_ppn;
    while ppn < end_ppn
        invariant
            first_ppn as int == floor_page(start as int),
            end_ppn as int == ceil_page(end as int),
            first_vpn as int == floor_page(target as int),
            first_ppn <= ppn,
            ppn <= end_ppn || ppn == first_ppn,
            r@.len() == ppn - first_ppn,
            forall|i: int| 0 <= i < r@.len() ==>
                (r@[i].0 as int, r@[i].1 as int) == (first_ppn + i, first_vpn + i),
        decreases end_ppn - ppn,
    {
        assert(first_vpn + (ppn - first_ppn) <= usize::MAX) by (nonlinear_arith)
            requires
                first_vpn as int == target as int / 4096,
                ppn < end_ppn,
                end_ppn as int == (end as int + 4095) / 4096,
        ;
        r.push((ppn, first_vpn + (ppn - first_ppn)));
        ppn = ppn + 1;
    }
    r
}

/// Virtual address in the new address space of a symbol found at physical
/// address `at`: the same offset from `target` as `at` has from `start`.
/// `None` when `at` lies below `start` or the sum leaves `usize`.
pub fn relocated(start: usize, target: usize, at: usize) -> (r: Option<usize>)
    ensures
        r == (if start <= at && relocated_spec(start as int, target as int, at as int) <= usize::MAX {
            Some(relocated_spec(start as int, target as int, at as int) as usize)
        } else {
            None::<usize>
        }),
{
    if at < start {
        return None;
    }
    let offset = at - start;
    if target > usize::MAX - offset {
        return None;
    }
    Some(target + offset)
}

/// What the loader does for one section that occupies memory: allocate and
/// map the virtual pages `[first_vpn, end_vpn)` with `perm`, and copy into
/// them the section's bytes when it has some in the file.
#[derive(Clone, Copy, Debug, PartialEq, Eq, Structural)]
pub struct SectionPlan {
    pub first_vpn: usize,
    pub end_vpn: usize,
    pub perm: Perm,
    /// The bytes to copy, if the section has some in the file.
    pub content: Option<SectionBytes>,
}

/// Bytes of a section in the file: its virtual address, file offset and size.
#[derive(Clone, Copy, Debug, PartialEq, Eq, Structural)]
pub struct SectionBytes {
    pub addr: usize,
    pub offset: usize,
    pub size: usize,
}

/// The plan of one section that occupies memory, in an image of `buf_len`
/// bytes.
pub open spec fn plan_of(s: SectionInfo, buf_len: int) -> Result<SectionPlan, LoadError> {
    if s.size == 0 {
        Err(LoadError::EmptySection)
    } else if s.addr + s.size > usize::MAX {
        Err(LoadError::OutOfRange)
    } else if !s.nobits && s.offset + s.size > buf_len {
        Err(LoadError::OutOfRange)
    } else {
        Ok(SectionPlan {
            first_vpn: floor_page(s.addr as int) as usize,
            end_vpn: ceil_page(s.addr + s.size) as usize,
            perm: section_perm_spec(s.flags),
            content: if s.nobits { None } else { Some(SectionBytes { addr: s.addr as usize, offset: s.offset as usize, size: s.size as usize }) },
        })
    }
}

/// The section occupies memory at run time.
pub open spec fn occupies_memory(s: SectionInfo) -> bool {
    s.flags & SHF_ALLOC != 0
}

/// The plans of the sections that occupy memory, in order, or the error of
/// the first section that has none.
pub open spec fn plans_of(secs: Seq<SectionInfo>, buf_len: int) -> Result<Seq<SectionPlan>, LoadError>
    decreases secs.len(),
{
    if secs.len() == 0 {
        Ok(Seq::empty())
    } else {
        match plans_of(secs.drop_last(), buf_len) {
            Err(e) => Err(e),
            Ok(ps) => if !occupies_memory(secs.last()) {
                Ok(ps)
            } else {
                match plan_of(secs.last(), buf_len) {
                    Err(e) => Err(e),
                    Ok(p) => Ok(ps.push(p)),
                }
            },
        }
    }
}

/// A plan whose pages can be filled: the copied bytes lie in the image and
/// the section lies in the pages.
pub open spec fn plan_fits(p: SectionPlan, buf_len: int) -> bool {
    p.first_vpn <= p.end_vpn && match p.content {
        Some(c) => c.offset + c.size <= buf_len && c.addr + c.size <= usize::MAX
            && p.first_vpn == floor_page(c.addr as int) && p.end_vpn == ceil_page(c.addr + c.size),
        None => true,
    }
}

/// The plan of one section that occupies memory.
pub fn plan_section(s: &SectionInfo, buf_len: usize) -> (r: Result<SectionPlan, LoadError>)
    ensures
        r == plan_of(*s, buf_len as int),
        r matches Ok(p) ==> plan_fits(p, buf_len as int),
{
    if s.size == 0 {
        return Err(LoadError::EmptySection);
    }
    if s.addr > usize::MAX as u64 || s.size > usize::MAX as u64 || s.addr > (usize::MAX as u64) - s.size {
        return Err(LoadError::OutOfRange);
    }
    let addr = s.addr as usize;
    let size = s.size as usize;
    if !s.nobits && (s.offset > buf_len as u64 || (buf_len as u64) - s.offset < s.size) {
        return Err(LoadError::OutOfRange);
    }
    let (first_vpn, end_vpn) = match section_pages(addr, size) {
        Ok(p) => p,
        Err(e) => {
            return Err(e);
        },
    };
    assert(addr as int / 4096 <= (addr + size + 4095) / 4096) by (nonlinear_arith);
    let content = if s.nobits { None } else { Some(SectionBytes { addr, offset: s.offset as usize, size }) };
    Ok(SectionPlan { first_vpn, end_vpn, perm: section_perm(s.flags), content })
}

/// The plans of the sections that occupy memory, in order; the error of the
/// first section that has none.
pub fn plan_sections(secs: &Vec<SectionInfo>, buf_len: usize) -> (r: Result<Vec<SectionPlan>, LoadError>)
    ensures
        match plans_of(secs@, buf_len as int) {
            Ok(ps) => r matches Ok(v) && v@ == ps,
            Err(e) => r == Err::<Vec<SectionPlan>, LoadError>(e),
        },
        r matches Ok(v) ==> forall|i: int| 0 <= i < v@.len() ==> plan_fits(#[trigger] v@[i], buf_len as int),
{
    let mut v: Vec<SectionPlan> = Vec::new();
    let mut i: usize = 0;
    while i < secs.len()
        invariant
            i <= secs@.len(),
            plans_of(secs@.subrange(0, i as int), buf_len as int) == Ok::<Seq<SectionPlan>, LoadError>(v@),
            forall|k: int| 0 <= k < v@.len() ==> plan_fits(#[trigger] v@[k], buf_len as int),
        decreases secs@.len() - i,
    {
        let s = &secs[i];
        proof {
            let pre = secs@.subrange(0, i as int + 1);
            assert(pre.drop_last() =~= secs@.subrange(0, i as int));
            assert(pre.last() == secs@[i as int]);
        }
        if s.flags & SHF_ALLOC != 0 {
            match plan_section(s, buf_len) {
                Ok(p) => {
                    v.push(p);
                },
                Err(e) => {
                    proof {
                        lemma_plans_err_stays(secs@, i as int + 1, buf_len as int, e);
                    }
                    return Err(e);
                },
            }
        }
        i = i + 1;
    }
    proof {
        assert(secs@.subrange(0, secs@.len() as int) =~= secs@);
    }
    Ok(v)
}

/// Once a prefix of the sections has no plan, the whole has none, with the
/// same error.
proof fn lemma_plans_err_stays(secs: Seq<SectionInfo>, n: int, buf_len: int, e: LoadError)
    requires
        0 <= n <= secs.len(),
        plans_of(secs.subrange(0, n), buf_len) == Err::<Seq<SectionPlan>, LoadError>(e),
    ensures
        plans_of(secs, buf_len) == Err::<Seq<SectionPlan>, LoadError>(e),
    decreases secs.len() - n,
{
    if n < secs.len() {
        let pre = secs.subrange(0, n + 1);
        assert(pre.drop_last() =~= secs.subrange(0, n));
        lemma_plans_err_stays(secs, n + 1, buf_len, e);
    } else {
        assert(secs.subrange(0, n) =~= secs);
    }
}

/// Where the bytes of a section at `addr` of `size` bytes, found at file
/// offset `offset`, land in virtual page `vpn`: (offset in the page, file
/// offset, count), for the bytes between `max(addr, page start)` and
/// `min(addr + size, page end)`.
pub open spec fn copy_spec(addr: int, offset: int, size: int, vpn: int) -> (int, int, int) {
    let page = vpn * PAGE_SIZE;
    let lo = if addr > page { addr } else { page };
    let hi = if addr + size < page + PAGE_SIZE { addr + size } else { page + PAGE_SIZE };
    (lo - page, offset + (lo - addr), hi - lo)
}

/// Where in virtual page `vpn` the bytes of a section at `addr` of `size`
/// bytes, found at file offset `offset`, land: the byte offset in the page,
/// the file offset to copy from, and the count. The page holds the section's
/// bytes between `max(addr, page start)` and `min(addr + size, page end)`.
pub fn page_copy(addr: usize, offset: usize, size: usize, vpn: usize) -> (r: (usize, usize, usize))
    requires
        addr + size <= usize::MAX,
        offset + size <= usize::MAX,
        floor_page(addr as int) <= vpn < ceil_page(addr + size),
    ensures
        (r.0 as int, r.1 as int, r.2 as int) == copy_spec(addr as int, offset as int, size as int, vpn as int),
        r.0 + r.2 <= PAGE_SIZE,
        offset <= r.1,
        r.1 + r.2 <= offset + size,
{
    assert(vpn * 4096 < addr + size) by (nonlinear_arith)
        requires
            vpn < (addr + size + 4095) / 4096,
    ;
    assert(addr < vpn * 4096 + 4096) by (nonlinear_arith)
        requires
            addr / 4096 <= vpn,
    ;
    let page = vpn * PAGE_SIZE;
    let end = addr + size;
    let lo = if addr > page { addr } else { page };
    let hi = if page <= usize::MAX - PAGE_SIZE && end > page + PAGE_SIZE { page + PAGE_SIZE } else { end };
    (lo - page, offset + (lo - addr), hi - lo)
}

/// The word to store for one relocation entry. `at` is the physical address
/// that the lookup gave for the entry's symbol, `slot` the physical address
/// that the entry's slot translated to. No lookup result: nothing to store.
pub fn got_write(start: usize, target: usize, at: Option<usize>, slot: Option<usize>) -> (r: Result<Option<GotWrite>, LoadError>)
    ensures
        at is None ==> r == Ok::<Option<GotWrite>, LoadError>(None),
        at matches Some(a) ==> r == (if !(start <= a && relocated_spec(start as int, target as int, a as int) <= usize::MAX) {
            Err(LoadError::SymbolOutsideRegion)
        } else if slot is None {
            Err(LoadError::Untranslated)
        } else {
            Ok(Some(GotWrite { paddr: slot.unwrap(), value: relocated_spec(start as int, target as int, a as int) as usize }))
        }),
{
    match at {
        None => Ok(None),
        Some(a) => match relocated(start, target, a) {
            None => Err(LoadError::SymbolOutsideRegion),
            Some(value) => match slot {
                None => Err(LoadError::Untranslated),
                Some(paddr) => Ok(Some(GotWrite { paddr, value })),
            },
        },
    }
}

/// The words stored for relocation entries whose lookups gave `ats` and
/// whose slots translated to `slots`, in entry order: one word per entry
/// with a lookup result, none for an entry without.
pub open spec fn words_of(start: usize, target: usize, ats: Seq<Option<usize>>, slots: Seq<Option<usize>>) -> Seq<GotWrite>
    decreases ats.len(),
{
    if ats.len() == 0 {
        Seq::empty()
    } else {
        let prev = words_of(start, target, ats.drop_last(), slots.drop_last());
        match ats.last() {
            None => prev,
            Some(a) => prev.push(
                GotWrite {
                    paddr: slots.last().unwrap(),
                    value: relocated_spec(start as int, target as int, a as int) as usize,
                },
            ),
        }
    }
}

/// Lookup results `ats` and slot translations `slots` that give no error:
/// every found symbol lies at or above `start`, its relocated address fits,
/// and its slot translated; an entry without a lookup result is not translated.
pub open spec fn results_ok(start: usize, target: usize, ats: Seq<Option<usize>>, slots: Seq<Option<usize>>) -> bool {
    forall|k: int| 0 <= k < ats.len() ==> match #[trigger] ats[k] {
        Some(a) => start <= a && relocated_spec(start as int, target as int, a as int) <= usize::MAX && slots[k] is Some,
        None => slots[k] is None,
    }
}

/// The name of symbol `index` as the view `d` of image `b` reads it.
pub open spec fn sym_name(d: Dynamic, b: Seq<u8>, index: u64) -> Seq<u8> {
    let p = d.name_start(b, index).unwrap();
    b.subrange(p, cstr_end(b, p))
}

/// `f`, called on bytes `name`, may return `r`.
pub open spec fn lookup_gave<F: Fn(&[u8]) -> Option<usize>>(f: F, name: Seq<u8>, r: Option<usize>) -> bool {
    exists|n: &[u8]| n@ == name && #[trigger] f.ensures((n,), r)
}

/// The slot of a relocation entry at virtual address `offset`, translated
/// through mappings `m`.
pub open spec fn slot_translation(m: Map<int, (int, Perm)>, offset: u64) -> Option<usize> {
    if offset <= usize::MAX {
        translation(m, offset as int)
    } else {
        None
    }
}

/// The slots that the entries of `table` with a lookup result in `ats`
/// translate to through mappings `m`; entries without one are not translated.
pub open spec fn slots_of(m: Map<int, (int, Perm)>, table: Seq<Rela>, ats: Seq<Option<usize>>) -> Seq<Option<usize>> {
    Seq::new(ats.len(), |k: int| if ats[k] is Some { slot_translation(m, table[k].offset) } else { None })
}

/// `f` never finds a symbol.
pub open spec fn finds_nothing<F: Fn(&[u8]) -> Option<usize>>(f: F) -> bool {
    forall|n: &[u8], o: Option<usize>| #[trigger] f.ensures((n,), o) ==> o is None
}

/// Every entry of `table` names a symbol whose name can be read.
pub open spec fn names_readable(buf: Seq<u8>, dynamic: Dynamic, table: Seq<Rela>) -> bool {
    forall|k: int| 0 <= k < table.len() ==> (#[trigger] dynamic.name_start(buf, table[k].info >> 32u64)) is Some
}

/// The stores that fill the slots of the explicit-addend relocations
/// `table`: each symbol is named through `dynamic`, looked up with the
/// region's lookup, and its slot translated through the mappings of `mmu`.
/// Entries whose symbol the lookup does not know are left as they are.
/// Each entry's lookup result is one that the lookup may give for that
/// entry's symbol name, its slot is translated through the mappings of `mmu`
/// only when the lookup found the symbol, and the words are `words_of` of
/// those results.
pub fn relocation_writes<M: MMU, F: Fn(&[u8]) -> Option<usize>>(
    buf: &[u8],
    mmu: &M,
    dynamic: &Dynamic,
    table: &Vec<Rela>,
    config: &VDSOConfig<F>,
) -> (r: Result<Vec<GotWrite>, LoadError>)
    requires
        forall|n: &[u8]| #[trigger] config.lookup.requires((n,)),
    ensures
        table@.len() == 0 ==> (r matches Ok(ws) && ws@.len() == 0),
        names_readable(buf@, *dynamic, table@) ==> r != Err::<Vec<GotWrite>, LoadError>(LoadError::Malformed),
        names_readable(buf@, *dynamic, table@) && finds_nothing(config.lookup) ==> (r matches Ok(ws) && ws@.len() == 0),
        r == Err::<Vec<GotWrite>, LoadError>(LoadError::Malformed) ==> exists|k: int|
            0 <= k < table@.len() && (#[trigger] dynamic.name_start(buf@, table@[k].info >> 32u64)) is None
                && forall|j: int| 0 <= j < k ==> (#[trigger] dynamic.name_start(buf@, table@[j].info >> 32u64)) is Some,
        r matches Err(e) ==> e == LoadError::Malformed || e == LoadError::SymbolOutsideRegion
            || e == LoadError::Untranslated,
        r matches Ok(ws) ==> exists|ats: Seq<Option<usize>>| {
            &&& ats.len() == table@.len()
            &&& forall|k: int| 0 <= k < table@.len() ==> lookup_gave(
                config.lookup,
                sym_name(*dynamic, buf@, table@[k].info >> 32u64),
                #[trigger] ats[k],
            )
            &&& results_ok(config.start, config.target, ats, slots_of(mmu.mappings(), table@, ats))
            &&& #[trigger] words_of(config.start, config.target, ats, slots_of(mmu.mappings(), table@, ats)) == ws@
        },
{
    let mut ws: Vec<GotWrite> = Vec::new();
    let ghost mut ats: Seq<Option<usize>> = Seq::empty();
    let ghost mut slots: Seq<Option<usize>> = Seq::empty();
    let mut i: usize = 0;
    while i < table.len()
        invariant
            i <= table@.len(),
            ats.len() == i,
            slots.len() == i,
            ws@ == words_of(config.start, config.target, ats, slots),
            results_ok(config.start, config.target, ats, slots),
            slots == slots_of(mmu.mappings(), table@, ats),
            finds_nothing(config.lookup) ==> ws@.len() == 0,
            forall|k: int| 0 <= k < i ==> lookup_gave(
                config.lookup,
                sym_name(*dynamic, buf@, table@[k].info >> 32u64),
                #[trigger] ats[k],
            ),
            forall|k: int| 0 <= k < i ==> (#[trigger] dynamic.name_start(buf@, table@[k].info >> 32u64)) is Some,
            forall|n: &[u8]| #[trigger] config.lookup.requires((n,)),
        decreases table@.len() - i,
    {
        let ent = table[i];
        let name = match dynamic.resolve_sym(buf, ent.info >> 32u64) {
            Some(n) => n,
            None => {
                return Err(LoadError::Malformed);
            },
        };
        let ns = name.as_slice();
        let at = (config.lookup)(ns);
        assert(finds_nothing(config.lookup) ==> at is None);
        assert(lookup_gave(config.lookup, sym_name(*dynamic, buf@, ent.info >> 32u64), at));
        let slot = match at {
            Some(_) => {
                if ent.offset > usize::MAX as u64 {
                    None
                } else {
                    mmu.translate(ent.offset as usize)
                }
            },
            None => None,
        };
        let res = got_write(config.start, config.target, at, slot);
        match res {
            Err(e) => {
                return Err(e);
            },
            _ => {},
        }
        proof {
            let ats2 = ats.push(at);
            let slots2 = slots.push(slot);
            assert(ats2.drop_last() =~= ats);
            assert(slots2.drop_last() =~= slots);
            assert forall|k: int| 0 <= k < ats2.len() implies match #[trigger] ats2[k] {
                Some(a) => config.start <= a && relocated_spec(config.start as int, config.target as int, a as int)
                    <= usize::MAX && slots2[k] is Some,
                None => slots2[k] is None,
            } by {
                if k < ats.len() {
                    assert(ats2[k] == ats[k]);
                    assert(slots2[k] == slots[k]);
                }
            }
            assert forall|k: int| 0 <= k < ats2.len() implies lookup_gave(
                config.lookup,
                sym_name(*dynamic, buf@, table@[k].info >> 32u64),
                #[trigger] ats2[k],
            ) by {
                if k < ats.len() {
                    assert(ats2[k] == ats[k]);
                }
            }
            assert(slots2 =~= slots_of(mmu.mappings(), table@, ats2));
            ats = ats2;
            slots = slots2;
        }
        match res {
            Ok(Some(w)) => {
                ws.push(w);
            },
            _ => {},
        }
        i = i + 1;
    }
    assert(words_of(config.start, config.target, ats, slots) == ws@);
    Ok(ws)
}

/// The name of a section that holds the dynamic entries starts with `.dynamic`.
pub open spec fn dynamic_prefix() -> Seq<u8> {
    seq![46u8, 100u8, 121u8, 110u8, 97u8, 109u8, 105u8, 99u8]
}

/// The section holds the dynamic entries: its name starts with `.dynamic`.
pub open spec fn is_dynamic_section(s: SectionInfo) -> bool {
    s.name matches Some(n) && n@.len() >= 8 && n@.subrange(0, 8) == dynamic_prefix()
}

/// The name starts with `.dynamic`.
pub fn is_dynamic_name(name: &Vec<u8>) -> (r: bool)
    ensures
        r == (name@.len() >= 8 && name@.subrange(0, 8) == dynamic_prefix()),
{
    if name.len() < 8 {
        return false;
    }
    let ok = name[0] == 46u8 && name[1] == 100u8 && name[2] == 121u8 && name[3] == 110u8 && name[4] == 97u8
        && name[5] == 109u8 && name[6] == 105u8 && name[7] == 99u8;
    proof {
        if ok {
            assert(name@.subrange(0, 8) =~= dynamic_prefix());
        } else {
            if name@.subrange(0, 8) == dynamic_prefix() {
                assert(name@.subrange(0, 8)[0] == name@[0]);
                assert(name@.subrange(0, 8)[1] == name@[1]);
                assert(name@.subrange(0, 8)[2] == name@[2]);
                assert(name@.subrange(0, 8)[3] == name@[3]);
                assert(name@.subrange(0, 8)[4] == name@[4]);
                assert(name@.subrange(0, 8)[5] == name@[5]);
                assert(name@.subrange(0, 8)[6] == name@[6]);
                assert(name@.subrange(0, 8)[7] == name@[7]);
            }
        }
    }
    ok
}

/// A mapping request made of an MMU through [`Traced`].
pub ghost enum MmuCall {
    /// A page allocated, given `bytes` from byte `offset` on, and mapped at `vpn`.
    Fresh { vpn: int, perm: Perm, offset: int, bytes: Seq<u8> },
    /// Physical page `ppn` mapped at `vpn`.
    Existing { ppn: int, vpn: int, perm: Perm },
}

/// An MMU together with the record of the mapping requests made through it.
/// Each method makes the MMU calls it names and records them.
pub struct Traced<M> {
    mmu: M,
    calls: Ghost<Seq<MmuCall>>,
}

impl<M: MMU> Traced<M> {
    /// The mapping requests made so far, in order.
    pub closed spec fn calls(&self) -> Seq<MmuCall> {
        self.calls@
    }

    /// The MMU held.
    pub closed spec fn mmu_view(&self) -> M {
        self.mmu
    }

    pub fn new(mmu: M) -> (r: Traced<M>)
        ensures
            r.calls() == Seq::<MmuCall>::empty(),
            r.mmu_view() == mmu,
    {
        Traced { mmu, calls: Ghost(Seq::empty()) }
    }

    /// The MMU.
    pub fn inner(&self) -> (r: &M)
        ensures
            *r == self.mmu_view(),
    {
        &self.mmu
    }

    /// The MMU, with the record dropped.
    pub fn into_inner(self) -> (r: M)
        ensures
            r == self.mmu_view(),
    {
        self.mmu
    }

    /// Allocates a page, writes `fill` into it (bytes from an offset on), and
    /// maps it at `vpn` with `perm`.
    pub fn map_fresh(&mut self, vpn: usize, perm: Perm, fill: Option<(usize, &[u8])>)
        requires
            fill matches Some(f) ==> f.0 + f.1@.len() <= PAGE_SIZE,
        ensures
            final(self).calls() == old(self).calls().push(
                match fill {
                    Some(f) => MmuCall::Fresh { vpn: vpn as int, perm, offset: f.0 as int, bytes: f.1@ },
                    None => MmuCall::Fresh { vpn: vpn as int, perm, offset: 0, bytes: Seq::empty() },
                },
            ),
            exists|p: int| final(self).mmu_view().mappings() == #[trigger] old(self).mmu_view().mappings().insert(
                vpn as int,
                (p, perm),
            ),
    {
        let mut page = self.mmu.alloc_page();
        match fill {
            Some((offset, bytes)) => {
                page.write(offset, bytes);
            },
            None => {},
        }
        let ghost fr = floor_page(page.frame() as int);
        let ghost before = self.mmu.mappings();
        assert(before == old(self).mmu.mappings());
        self.mmu.map(page, vpn, perm);
        assert(self.mmu.mappings() == before.insert(vpn as int, (fr, perm)));
        self.calls = Ghost(
            self.calls@.push(
                match fill {
                    Some(f) => MmuCall::Fresh { vpn: vpn as int, perm, offset: f.0 as int, bytes: f.1@ },
                    None => MmuCall::Fresh { vpn: vpn as int, perm, offset: 0, bytes: Seq::empty() },
                },
            ),
        );
        assert(self.mmu_view().mappings() == old(self).mmu_view().mappings().insert(vpn as int, (fr, perm)));
    }

    /// Maps the existing physical page `ppn` at `vpn` with `perm`.
    pub fn map_existing(&mut self, ppn: usize, vpn: usize, perm: Perm)
        ensures
            final(self).calls() == old(self).calls().push(MmuCall::Existing { ppn: ppn as int, vpn: vpn as int, perm }),
            final(self).mmu_view().mappings() == old(self).mmu_view().mappings().insert(vpn as int, (ppn as int, perm)),
    {
        self.mmu.map_existing(ppn, vpn, perm);
        self.calls = Ghost(self.calls@.push(MmuCall::Existing { ppn: ppn as int, vpn: vpn as int, perm }));
    }
}

/// The request for virtual page `vpn` of section plan `p` of image `b`.
pub open spec fn plan_page_call(p: SectionPlan, b: Seq<u8>, vpn: int) -> MmuCall {
    match p.content {
        Some(c) => {
            let (d, src, n) = copy_spec(c.addr as int, c.offset as int, c.size as int, vpn);
            MmuCall::Fresh { vpn, perm: p.perm, offset: d, bytes: b.subrange(src, src + n) }
        },
        None => MmuCall::Fresh { vpn, perm: p.perm, offset: 0, bytes: Seq::empty() },
    }
}

/// The requests for the first `n` pages of section plan `p`.
pub open spec fn plan_calls(p: SectionPlan, b: Seq<u8>, n: int) -> Seq<MmuCall> {
    Seq::new(n as nat, |i: int| plan_page_call(p, b, p.first_vpn + i))
}

/// The requests for all pages of the section plans `ps`, plan by plan.
pub open spec fn plans_calls(ps: Seq<SectionPlan>, b: Seq<u8>) -> Seq<MmuCall>
    decreases ps.len(),
{
    if ps.len() == 0 {
        Seq::empty()
    } else {
        plans_calls(ps.drop_last(), b) + plan_calls(ps.last(), b, ps.last().end_vpn - ps.last().first_vpn)
    }
}

/// The requests that splice in the shared region `[start, end)` at `target`.
pub open spec fn vdso_calls(start: int, end: int, target: int) -> Seq<MmuCall> {
    let pairs = vdso_pairs_spec(start, end, target);
    Seq::new(pairs.len(), |i: int| MmuCall::Existing { ppn: pairs[i].0, vpn: pairs[i].1, perm: vdso_perm_spec() })
}

/// The requests that map the stack `[start, end)`: one fresh read-write page
/// per virtual page from `floor(start)` up to `ceil(end)`.
pub open spec fn stack_calls(start: int, end: int) -> Seq<MmuCall> {
    let n = if ceil_page(end) > floor_page(start) { ceil_page(end) - floor_page(start) } else { 0 };
    Seq::new(n as nat, |i: int| MmuCall::Fresh { vpn: floor_page(start) + i, perm: stack_perm_spec(), offset: 0, bytes: Seq::empty() })
}

/// Allocates, fills and maps the pages of each section plan.
fn map_sections<M: MMU>(buf: &[u8], mmu: &mut Traced<M>, plans: &Vec<SectionPlan>)
    requires
        forall|i: int| 0 <= i < plans@.len() ==> plan_fits(#[trigger] plans@[i], buf@.len() as int),
    ensures
        final(mmu).calls() == old(mmu).calls() + plans_calls(plans@, buf@),
{
    let blen = buf.len();
    let mut i: usize = 0;
    proof {
        assert(plans@.subrange(0, 0) =~= Seq::<SectionPlan>::empty());
        assert(old(mmu).calls() + plans_calls(Seq::empty(), buf@) =~= old(mmu).calls());
    }
    while i < plans.len()
        invariant
            blen == buf@.len(),
            i <= plans@.len(),
            forall|k: int| 0 <= k < plans@.len() ==> plan_fits(#[trigger] plans@[k], buf@.len() as int),
            mmu.calls() == old(mmu).calls() + plans_calls(plans@.subrange(0, i as int), buf@),
        decreases plans@.len() - i,
    {
        let p = plans[i];
        assert(plan_fits(plans@[i as int], buf@.len() as int));
        assert(p.first_vpn <= p.end_vpn);
        let ghost before = mmu.calls();
        let mut vpn: usize = p.first_vpn;
        proof {
            assert(plan_calls(p, buf@, 0) =~= Seq::<MmuCall>::empty());
            assert(before + plan_calls(p, buf@, 0) =~= before);
        }
        while vpn < p.end_vpn
            invariant
                blen == buf@.len(),
                plan_fits(p, buf@.len() as int),
                p.first_vpn <= vpn <= p.end_vpn,
                mmu.calls() == before + plan_calls(p, buf@, vpn - p.first_vpn),
            decreases p.end_vpn - vpn,
        {
            let ghost prev = mmu.calls();
            match p.content {
                Some(c) => {
                    let (dst, src, len) = page_copy(c.addr, c.offset, c.size, vpn);
                    mmu.map_fresh(vpn, p.perm, Some((dst, slice_subrange(buf, src, src + len))));
                },
                None => {
                    mmu.map_fresh(vpn, p.perm, None);
                },
            }
            proof {
                assert(plan_calls(p, buf@, vpn + 1 - p.first_vpn) =~= plan_calls(p, buf@, vpn - p.first_vpn).push(
                    plan_page_call(p, buf@, vpn as int),
                ));
                assert(mmu.calls() =~= before + plan_calls(p, buf@, vpn + 1 - p.first_vpn));
            }
            vpn = vpn + 1;
        }
        proof {
            let pre = plans@.subrange(0, i as int + 1);
            assert(pre.drop_last() =~= plans@.subrange(0, i as int));
            assert(pre.last() == p);
            assert(plans_calls(pre, buf@) == plans_calls(plans@.subrange(0, i as int), buf@) + plan_calls(
                p,
                buf@,
                p.end_vpn - p.first_vpn,
            ));
            assert(mmu.calls() =~= old(mmu).calls() + plans_calls(pre, buf@));
        }
        i = i + 1;
    }
    proof {
        assert(plans@.subrange(0, plans@.len() as int) =~= plans@);
    }
}

/// Maps the shared region's physical pages, each at its place behind `target`.
fn map_vdso<M: MMU>(mmu: &mut Traced<M>, start: usize, end: usize, target: usize)
    ensures
        final(mmu).calls() == old(mmu).calls() + vdso_calls(start as int, end as int, target as int),
{
    let pairs = vdso_pairs(start, end, target);
    let perm = vdso_perm();
    let ghost want = vdso_calls(start as int, end as int, target as int);
    let mut i: usize = 0;
    while i < pairs.len()
        invariant
            i <= pairs@.len(),
            pairs@.len() == want.len(),
            perm == vdso_perm_spec(),
            want == vdso_calls(start as int, end as int, target as int),
            forall|k: int| 0 <= k < pairs@.len() ==>
                (pairs@[k].0 as int, pairs@[k].1 as int) == #[trigger] vdso_pairs_spec(start as int, end as int, target as int)[k],
            mmu.calls() =~= old(mmu).calls() + want.subrange(0, i as int),
        decreases pairs@.len() - i,
    {
        let (ppn, vpn) = pairs[i];
        assert(vdso_pairs_spec(start as int, end as int, target as int)[i as int] == (ppn as int, vpn as int));
        mmu.map_existing(ppn, vpn, perm);
        assert(want.subrange(0, i as int + 1) =~= want.subrange(0, i as int).push(want[i as int]));
        i = i + 1;
    }
    assert(want.subrange(0, want.len() as int) =~= want);
}

/// Mappings `m1` and `m2` agree on every virtual page outside `[lo, hi)`.
pub open spec fn agree_outside(m1: Map<int, (int, Perm)>, m2: Map<int, (int, Perm)>, lo: int, hi: int) -> bool {
    forall|v: int| #![trigger m1.contains_key(v)] #![trigger m2.contains_key(v)]
        !(lo <= v < hi) ==> (m1.contains_key(v) <==> m2.contains_key(v)) && (m1.contains_key(v) ==> m1[v] == m2[v])
}

/// Allocates and maps the pages of the stack.
fn map_stack<M: MMU>(mmu: &mut Traced<M>, stack: &StackConfig)
    ensures
        final(mmu).calls() == old(mmu).calls() + stack_calls(stack.start as int, stack.end as int),
        agree_outside(
            old(mmu).mmu_view().mappings(),
            final(mmu).mmu_view().mappings(),
            floor_page(stack.start as int),
            ceil_page(stack.end as int),
        ),
{
    let (first, end) = stack_pages(stack);
    let perm = stack_perm();
    let ghost want = stack_calls(stack.start as int, stack.end as int);
    let mut vpn: usize = first;
    if vpn >= end {
        assert(want =~= Seq::<MmuCall>::empty());
        assert(old(mmu).calls() + want =~= old(mmu).calls());
        return;
    }
    while vpn < end
        invariant
            first <= vpn <= end,
            first as int == floor_page(stack.start as int),
            end as int == ceil_page(stack.end as int),
            perm == stack_perm_spec(),
            want == stack_calls(stack.start as int, stack.end as int),
            want.len() == end - first,
            mmu.calls() =~= old(mmu).calls() + want.subrange(0, vpn - first),
            agree_outside(old(mmu).mmu_view().mappings(), mmu.mmu_view().mappings(), first as int, end as int),
        decreases end - vpn,
    {
        mmu.map_fresh(vpn, perm, None);
        assert(want.subrange(0, vpn + 1 - first) =~= want.subrange(0, vpn - first).push(want[vpn - first]));
        vpn = vpn + 1;
    }
    assert(want.subrange(0, want.len() as int) =~= want);
}

/// Index of the last section whose name starts with `.dynamic`.
pub open spec fn dynamic_index(secs: Seq<SectionInfo>) -> Option<int>
    decreases secs.len(),
{
    if secs.len() == 0 {
        None
    } else if is_dynamic_section(secs.last()) {
        Some(secs.len() - 1)
    } else {
        dynamic_index(secs.drop_last())
    }
}

/// What reading the dynamic section of sections `secs` of image `b` gives:
/// nothing without such a section, `OutOfRange` when its bytes lie beyond
/// `usize`, `Malformed` when its tables cannot be read, else the view.
pub open spec fn dynamic_outcome(b: Seq<u8>, secs: Seq<SectionInfo>, r: Result<Option<Dynamic>, LoadError>) -> bool {
    match dynamic_index(secs) {
        None => r matches Ok(None),
        Some(i) => {
            let s = secs[i];
            if s.offset + s.size > usize::MAX {
                r == Err::<Option<Dynamic>, LoadError>(LoadError::OutOfRange)
            } else if !parse_ok(b, secs, s.offset as int, s.offset + s.size) {
                r == Err::<Option<Dynamic>, LoadError>(LoadError::Malformed)
            } else {
                r matches Ok(Some(d)) && parsed_from(d, b, secs, s.offset as int, s.offset + s.size)
            }
        },
    }
}

/// The bounds of the dynamic section of image `b`, if it has one.
pub open spec fn dynamic_bounds(b: Seq<u8>) -> Option<(int, int)> {
    match dynamic_index(sections_of(b)) {
        Some(i) => Some((sections_of(b)[i].offset as int, sections_of(b)[i].offset + sections_of(b)[i].size)),
        None => None,
    }
}

/// The dynamic section of image `b`, if any, lies within `usize` and its
/// tables can be read.
pub open spec fn dynamic_readable(b: Seq<u8>) -> bool {
    match dynamic_bounds(b) {
        None => true,
        Some((start, end)) => end <= usize::MAX && parse_ok(b, sections_of(b), start, end),
    }
}

/// Image `b` has an explicit-addend relocation table.
pub open spec fn has_rela(b: Seq<u8>) -> bool {
    dynamic_bounds(b) matches Some((start, end)) && dyn_find(b, start, end, DT_RELA) is Some
}

/// Image `b` has an implicit-addend relocation table and no explicit-addend one.
pub open spec fn has_rel_only(b: Seq<u8>) -> bool {
    dynamic_bounds(b) matches Some((start, end)) && dyn_find(b, start, end, DT_RELA) is None
        && dyn_find(b, start, end, DT_REL) is Some
}

/// The symbol and string tables of the dynamic section of image `b`, as a
/// view that names symbols.
pub open spec fn image_names(b: Seq<u8>) -> Dynamic {
    let (start, end) = dynamic_bounds(b).unwrap();
    Dynamic {
        rel: None,
        symtab: table_offset(b, sections_of(b), start, end, DT_SYMTAB),
        strtab: table_offset(b, sections_of(b), start, end, DT_STRTAB),
    }
}

/// The explicit-addend relocation entries of image `b`.
pub open spec fn image_table(b: Seq<u8>) -> Seq<Rela> {
    let (start, end) = dynamic_bounds(b).unwrap();
    rela_entries(
        b,
        table_offset(b, sections_of(b), start, end, DT_RELA).unwrap() as int,
        (dyn_find(b, start, end, DT_RELASZ).unwrap() / 24) as int,
    )
}

/// No relocation slot of `table` lies in a virtual page of `[lo, hi)`.
pub open spec fn slots_clear_of(table: Seq<Rela>, lo: int, hi: int) -> bool {
    forall|k: int| 0 <= k < table.len() ==> {
        let v = (#[trigger] table[k]).offset as int / PAGE_SIZE as int;
        !(lo <= v && v < hi)
    }
}

/// The file header of `b` can be read, its entry fits in `usize`, and its
/// section header table is aligned.
pub open spec fn header_ok(b: Seq<u8>) -> bool {
    entry_of(b) matches Some(e) && e <= usize::MAX && shoff_aligned(b)
}

/// Everything that decides success before a relocation is looked at holds.
pub open spec fn image_ready(b: Seq<u8>) -> bool {
    header_ok(b) && plans_of(sections_of(b), b.len() as int) is Ok && dynamic_readable(b)
}

/// The `.dynamic` view of the image, read from the last section whose name
/// starts with `.dynamic`.
fn find_dynamic(buf: &[u8], secs: &Vec<SectionInfo>) -> (r: Result<Option<Dynamic>, LoadError>)
    ensures
        dynamic_outcome(buf@, secs@, r),
{
    let mut last: Option<usize> = None;
    let mut i: usize = 0;
    while i < secs.len()
        invariant
            i <= secs@.len(),
            dynamic_index(secs@.subrange(0, i as int)) == (match last {
                Some(k) => Some(k as int),
                None => None::<int>,
            }),
            last matches Some(k) ==> k < i,
        decreases secs@.len() - i,
    {
        proof {
            let pre = secs@.subrange(0, i as int + 1);
            assert(pre.drop_last() =~= secs@.subrange(0, i as int));
            assert(pre.last() == secs@[i as int]);
        }
        let named = match &secs[i].name {
            Some(n) => is_dynamic_name(n),
            None => false,
        };
        if named {
            last = Some(i);
        }
        i = i + 1;
    }
    proof {
        assert(secs@.subrange(0, secs@.len() as int) =~= secs@);
        assert(dynamic_index(secs@) == dynamic_index(secs@.subrange(0, secs@.len() as int)));
    }
    match last {
        None => Ok(None),
        Some(k) => {
            assert(dynamic_index(secs@) == Some(k as int));
            let s = &secs[k];
            if s.offset > usize::MAX as u64 || s.size > usize::MAX as u64 || s.offset > (usize::MAX as u64) - s.size {
                return Err(LoadError::OutOfRange);
            }
            let start = s.offset as usize;
            let end = start + s.size as usize;
            match Dynamic::parse(buf, secs, start, end) {
                Some(d) => Ok(Some(d)),
                None => Err(LoadError::Malformed),
            }
        },
    }
}

/// Lookup results `ats`, one per explicit-addend relocation entry of image
/// `b`, each one that `lookup` may give for the entry's symbol name, that
/// give no error with the slots translated through mappings `m`, and whose
/// words are `ws`.
pub open spec fn image_words<F: Fn(&[u8]) -> Option<usize>>(
    start: usize,
    target: usize,
    lookup: F,
    b: Seq<u8>,
    m: Map<int, (int, Perm)>,
    ats: Seq<Option<usize>>,
    ws: Seq<GotWrite>,
) -> bool {
    &&& ats.len() == image_table(b).len()
    &&& forall|k: int| 0 <= k < ats.len() ==> lookup_gave(
        lookup,
        sym_name(image_names(b), b, image_table(b)[k].info >> 32u64),
        #[trigger] ats[k],
    )
    &&& results_ok(start, target, ats, slots_of(m, image_table(b), ats))
    &&& words_of(start, target, ats, slots_of(m, image_table(b), ats)) == ws
}

/// The words `ws` are those of the explicit-addend relocations of image `b`
/// for results that the lookup of `c` may give, with the slots translated
/// through mappings `m`.
pub open spec fn relocated_as_looked_up<F: Fn(&[u8]) -> Option<usize>>(
    c: VDSOConfig<F>,
    b: Seq<u8>,
    m: Map<int, (int, Perm)>,
    ws: Seq<GotWrite>,
) -> bool {
    exists|ats: Seq<Option<usize>>| #[trigger] image_words(c.start, c.target, c.lookup, b, m, ats, ws)
}

/// The relocation phase: with a shared region spliced in, the words for the
/// explicit-addend relocations of the image, whose dynamic view is `dynamic`,
/// with slots translated through `mmu`.
fn relocate<M: MMU, F: Fn(&[u8]) -> Option<usize>>(
    buf: &[u8],
    mmu: &M,
    dynamic: &Option<Dynamic>,
    config: &VDSOConfig<F>,
) -> (r: Result<Vec<GotWrite>, LoadError>)
    requires
        forall|n: &[u8]| #[trigger] config.lookup.requires((n,)),
        dynamic_bounds(buf@) is None ==> *dynamic is None,
        dynamic_bounds(buf@) matches Some(bd) ==> (*dynamic matches Some(d) && parsed_from(
            d,
            buf@,
            sections_of(buf@),
            bd.0,
            bd.1,
        )),
    ensures
        !has_rela(buf@) && !has_rel_only(buf@) ==> (r matches Ok(ws) && ws@.len() == 0),
        has_rel_only(buf@) ==> r == Err::<Vec<GotWrite>, LoadError>(LoadError::ImplicitAddend),
        has_rela(buf@) && image_table(buf@).len() == 0 ==> (r matches Ok(ws) && ws@.len() == 0),
        has_rela(buf@) && names_readable(buf@, image_names(buf@), image_table(buf@)) && finds_nothing(config.lookup)
            ==> (r matches Ok(ws) && ws@.len() == 0),
        r == Err::<Vec<GotWrite>, LoadError>(LoadError::Malformed) ==> has_rela(buf@) && !names_readable(
            buf@,
            image_names(buf@),
            image_table(buf@),
        ),
        r matches Err(e) ==> (has_rel_only(buf@) && e == LoadError::ImplicitAddend) || (has_rela(buf@) && (e
            == LoadError::Malformed || e == LoadError::SymbolOutsideRegion || e == LoadError::Untranslated)),
        r matches Ok(ws) ==> (has_rela(buf@) ==> exists|ats: Seq<Option<usize>>|
            #[trigger] image_words(config.start, config.target, config.lookup, buf@, mmu.mappings(), ats, ws@)),
        r matches Ok(ws) ==> exists|ats: Seq<Option<usize>>, slots: Seq<Option<usize>>|
            results_ok(config.start, config.target, ats, slots) && #[trigger] words_of(
                config.start,
                config.target,
                ats,
                slots,
            ) == ws@,
{
    proof {
        assert(words_of(config.start, config.target, Seq::empty(), Seq::empty()) == Seq::<GotWrite>::empty());
    }
    match dynamic {
        Some(d) => match &d.rel {
            Some(RelTable::RELA(table)) => {
                let ghost m = mmu.mappings();
                assert(table@ == image_table(buf@));
                assert(d.symtab == image_names(buf@).symtab && d.strtab == image_names(buf@).strtab);
                assert forall|x: u64| #[trigger] d.name_start(buf@, x) == image_names(buf@).name_start(buf@, x) by {}
                assert forall|x: u64| #[trigger] sym_name(*d, buf@, x) == sym_name(image_names(buf@), buf@, x) by {}
                let res = relocation_writes(buf, mmu, d, table, config);
                proof {
                    if res == Err::<Vec<GotWrite>, LoadError>(LoadError::Malformed) {
                        let k = choose|k: int|
                            0 <= k < table@.len() && (#[trigger] d.name_start(buf@, table@[k].info >> 32u64)) is None
                                && forall|j: int| 0 <= j < k ==> (#[trigger] d.name_start(buf@, table@[j].info >> 32u64)) is Some;
                        assert(image_names(buf@).name_start(buf@, table@[k].info >> 32u64) is None);
                    }
                    if res is Ok {
                        let ats = choose|ats: Seq<Option<usize>>| {
                            &&& ats.len() == table@.len()
                            &&& forall|k: int| 0 <= k < table@.len() ==> lookup_gave(
                                config.lookup,
                                sym_name(*d, buf@, table@[k].info >> 32u64),
                                #[trigger] ats[k],
                            )
                            &&& results_ok(config.start, config.target, ats, slots_of(m, table@, ats))
                            &&& #[trigger] words_of(config.start, config.target, ats, slots_of(m, table@, ats)) == res->Ok_0@
                        };
                        assert(image_words(config.start, config.target, config.lookup, buf@, m, ats, res->Ok_0@));
                    }
                }
                res
            },
            Some(RelTable::REL) => Err(LoadError::ImplicitAddend),
            None => Ok(Vec::new()),
        },
        None => Ok(Vec::new()),
    }
}

impl Loader {
    /// Loads an ELF64 image into the address space of `mmu`: allocates, fills
    /// and maps the pages of each section that occupies memory, splices in the
    /// shared region of `ldso` with its relocations resolved, and maps the
    /// stack. Returns the entry point and the words to store into the
    /// relocated slots (physical address, value).
    ///
    /// Nothing is mapped when the image is malformed, a section that occupies
    /// memory has no plan, or the dynamic section cannot be read. Each of
    /// these, an implicit-addend relocation table and an untranslated slot are
    /// reported as errors rather than aborting, so that the caller can reject
    /// the image.
    #[verifier::rlimit(100)]
    pub fn load<M: MMU, F: Fn(&[u8]) -> Option<usize>>(
        buf: &[u8],
        mmu: &mut Traced<M>,
        ldso: Option<VDSOConfig<F>>,
        stack: StackConfig,
    ) -> (r: Result<(Loader, Vec<GotWrite>), LoadError>)
        requires
            ldso matches Some(c) ==> forall|n: &[u8]| #[trigger] c.lookup.requires((n,)),
        ensures
            !header_ok(buf@) ==> r == Err::<(Loader, Vec<GotWrite>), LoadError>(LoadError::Malformed),
            header_ok(buf@) ==> (plans_of(sections_of(buf@), buf@.len() as int) matches Err(e)
                ==> r == Err::<(Loader, Vec<GotWrite>), LoadError>(e)),
            header_ok(buf@) && plans_of(sections_of(buf@), buf@.len() as int) is Ok && (dynamic_bounds(buf@) matches Some(
                bd,
            ) && bd.1 > usize::MAX) ==> r == Err::<(Loader, Vec<GotWrite>), LoadError>(LoadError::OutOfRange),
            header_ok(buf@) && plans_of(sections_of(buf@), buf@.len() as int) is Ok && (dynamic_bounds(buf@) matches Some(
                bd,
            ) && bd.1 <= usize::MAX && !parse_ok(buf@, sections_of(buf@), bd.0, bd.1)) ==> r == Err::<
                (Loader, Vec<GotWrite>),
                LoadError,
            >(LoadError::Malformed),
            image_ready(buf@) && (ldso is None || (!has_rela(buf@) && !has_rel_only(buf@))) ==> (r matches Ok(
                res,
            ) && res.1@.len() == 0),
            image_ready(buf@) && ldso is Some && has_rel_only(buf@) ==> r == Err::<
                (Loader, Vec<GotWrite>),
                LoadError,
            >(LoadError::ImplicitAddend),
            image_ready(buf@) ==> (r matches Err(e) ==> ldso is Some && (has_rel_only(buf@) || (has_rela(buf@)
                && (e == LoadError::Malformed || e == LoadError::SymbolOutsideRegion || e
                == LoadError::Untranslated)))),
            r matches Ok(res) ==> entry_of(buf@) == Some(res.0.entry as u64) && image_ready(buf@),
            !image_ready(buf@) ==> final(mmu).calls() == old(mmu).calls(),
            r matches Ok(res) ==> final(mmu).calls() == old(mmu).calls() + plans_calls(
                plans_of(sections_of(buf@), buf@.len() as int)->Ok_0,
                buf@,
            ) + (match ldso {
                Some(c) => vdso_calls(c.start as int, c.end as int, c.target as int),
                None => Seq::<MmuCall>::empty(),
            }) + stack_calls(stack.start as int, stack.end as int),
            image_ready(buf@) && ldso is Some && has_rela(buf@) && image_table(buf@).len() == 0 ==> (r matches Ok(res)
                && res.1@.len() == 0),
            ldso matches Some(c) ==> (image_ready(buf@) && has_rela(buf@) && names_readable(
                buf@,
                image_names(buf@),
                image_table(buf@),
            ) && finds_nothing(c.lookup) ==> (r matches Ok(res) && res.1@.len() == 0)),
            image_ready(buf@) && r == Err::<(Loader, Vec<GotWrite>), LoadError>(LoadError::Malformed) ==> has_rela(buf@)
                && !names_readable(buf@, image_names(buf@), image_table(buf@)),
            ldso is Some && r is Ok && has_rela(buf@) && slots_clear_of(
                image_table(buf@),
                floor_page(stack.start as int),
                ceil_page(stack.end as int),
            ) ==> relocated_as_looked_up(ldso->Some_0, buf@, final(mmu).mmu_view().mappings(), r->Ok_0.1@),
            ldso matches Some(c) ==> (r matches Ok(res) ==> exists|ats: Seq<Option<usize>>, slots: Seq<Option<usize>>|
                results_ok(c.start, c.target, ats, slots) && #[trigger] words_of(c.start, c.target, ats, slots)
                    == res.1@),
    {
        let entry = match entry_point(buf) {
            Some(e) => e,
            None => {
                return Err(LoadError::Malformed);
            },
        };
        if entry > usize::MAX as u64 || !shoff_is_aligned(buf) {
            return Err(LoadError::Malformed);
        }
        let secs = sections(buf);
        let plans = match plan_sections(&secs, buf.len()) {
            Ok(v) => v,
            Err(e) => {
                return Err(e);
            },
        };
        let dynamic = match find_dynamic(buf, &secs) {
            Ok(d) => d,
            Err(e) => {
                return Err(e);
            },
        };
        map_sections(buf, mmu, &plans);
        let mut writes: Vec<GotWrite> = Vec::new();
        let ghost mut reloc_map: Map<int, (int, Perm)> = Map::empty();
        match &ldso {
            Some(config) => {
                map_vdso(mmu, config.start, config.end, config.target);
                let ghost m = mmu.mmu_view().mappings();
                match relocate(buf, mmu.inner(), &dynamic, config) {
                    Ok(ws) => {
                        proof {
                            reloc_map = m;
                        }
                        writes = ws;
                    },
                    Err(e) => {
                        return Err(e);
                    },
                }
            },
            None => {},
        }
        let ghost mid = mmu.calls();
        let ghost mid_map = mmu.mmu_view().mappings();
        map_stack(mmu, &stack);
        proof {
            assert(mmu.calls() == mid + stack_calls(stack.start as int, stack.end as int));
            if ldso is Some && has_rela(buf@) && slots_clear_of(
                image_table(buf@),
                floor_page(stack.start as int),
                ceil_page(stack.end as int),
            ) {
                let t = image_table(buf@);
                let fm = mmu.mmu_view().mappings();
                let c = ldso->Some_0;
                assert(exists|ats: Seq<Option<usize>>| #[trigger] image_words(c.start, c.target, c.lookup, buf@, reloc_map, ats, writes@));
                let reloc_ats = choose|ats: Seq<Option<usize>>| image_words(c.start, c.target, c.lookup, buf@, reloc_map, ats, writes@);
                assert forall|k: int| 0 <= k < t.len() implies #[trigger] slot_translation(fm, t[k].offset)
                    == slot_translation(reloc_map, t[k].offset) by {
                    let v = t[k].offset as int / PAGE_SIZE as int;
                    assert(!(floor_page(stack.start as int) <= v < ceil_page(stack.end as int)));
                    assert(reloc_map.contains_key(v) <==> fm.contains_key(v));
                }
                assert(slots_of(fm, t, reloc_ats) =~= slots_of(reloc_map, t, reloc_ats));
                assert(image_words(c.start, c.target, c.lookup, buf@, fm, reloc_ats, writes@));
            }
        }
        assert(ldso is Some && has_rela(buf@) && slots_clear_of(
            image_table(buf@),
            floor_page(stack.start as int),
            ceil_page(stack.end as int),
        ) ==> relocated_as_looked_up(ldso->Some_0, buf@, mmu.mmu_view().mappings(), writes@));
        Ok((Loader { entry: entry as usize }, writes))
    }
}

} // verus!
