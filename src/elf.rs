//! What the loader reads of an ELF64 image: its section headers and entry
//! point (through elf_rs), and a view of its `.dynamic` section.
use vstd::prelude::*;
use vstd::slice::slice_subrange;
use elf_rs::{Elf64, ElfFile, SectionHeaderRaw, SectionType};

verus! {

/// A section header as the loader reads it.
#[derive(Clone, Debug, PartialEq, Eq)]
pub struct SectionInfo {
    /// The section's name, if the string table holds it.
    pub name: Option<Vec<u8>>,
    /// The section occupies no bytes of the file.
    pub nobits: bool,
    pub flags: u64,
    pub addr: u64,
    pub offset: u64,
    pub size: u64,
}

/// The section header at `index` of image `b`, as elf_rs reads it.
pub uninterp spec fn section_of(b: Seq<u8>, index: usize) -> Option<SectionInfo>;

/// The little-endian `u16` at byte `off` of `s`.
pub open spec fn le_u16(s: Seq<u8>, off: int) -> u16 {
    (s[off] as u16) | ((s[off + 1] as u16) << 8u16)
}

/// `b` starts with an ELF64 file header: at least 64 bytes, the magic
/// `7f 'E' 'L' 'F'`, class byte 2, and no shorter than its own header-size field.
pub open spec fn is_elf64(b: Seq<u8>) -> bool {
    &&& b.len() >= 64
    &&& b[0] == 0x7fu8 && b[1] == 0x45u8 && b[2] == 0x4cu8 && b[3] == 0x46u8
    &&& b[4] == 2u8
    &&& b.len() >= le_u16(b, 52)
}

/// The entry point of image `b`: the 8 bytes at offset 24 of its header.
pub open spec fn entry_of(b: Seq<u8>) -> Option<u64> {
    if is_elf64(b) {
        Some(le_u64(b, 24))
    } else {
        None
    }
}

/// The section header table of image `b` starts at an offset that is a
/// multiple of 8, or `b` is too short to hold a file header.
pub open spec fn shoff_aligned(b: Seq<u8>) -> bool {
    b.len() >= 64 ==> le_u64(b, 40) % 8 == 0
}

/// Relies on `elf_rs::Elf64::from_bytes` and `Elf64::section_header_nth` with
/// the header's accessors: the header at `index`, or `None` when the buffer
/// is no ELF64 image or has no such header. The count of headers is a `u16`
/// field of the file header, so no index past it names one.
/// elf_rs views the header table as a slice of 8-byte-aligned records, so the
/// table's offset must be a multiple of 8 and the bytes are handed over from
/// an 8-byte-aligned copy.
#[verifier::external_body]
fn section_at(buf: &[u8], index: usize) -> (r: Option<SectionInfo>)
    requires
        shoff_aligned(buf@),
    ensures
        r == section_of(buf@, index),
        index >= 0x10000 ==> r is None,
{
    let mut v: Vec<u8> = Vec::with_capacity(buf.len() + 8);
    let k = (8 - v.as_ptr() as usize % 8) % 8;
    v.resize(k, 0);
    v.extend_from_slice(buf);
    let elf = Elf64::from_bytes(&v[k..]).ok()?;
    let h = elf.section_header_nth(index)?;
    let nobits = match h.sh_type() {
        SectionType::SHT_NOBITS => true,
        _ => false,
    };
    let name = h.section_name().map(|n| n.to_vec());
    Some(SectionInfo { name, nobits, flags: h.flags().bits(), addr: h.addr(), offset: h.offset(), size: h.size() })
}

/// Relies on `elf_rs::Elf64::from_bytes` and `ElfFile::entry_point`: the
/// image is accepted when it starts with the magic, is at least as long as
/// the 64-byte header and its header-size field, and has class byte 2; the
/// entry is the header's word at offset 24. elf_rs reads header fields in the
/// host's byte order, so this holds on little-endian hosts, the targets of this
/// loader. The header is handed over from an 8-byte-aligned copy.
#[verifier::external_body]
fn entry_at(buf: &[u8]) -> (r: Option<u64>)
    ensures
        r == entry_of(buf@),
{
    let mut v: Vec<u8> = Vec::with_capacity(buf.len() + 8);
    let k = (8 - v.as_ptr() as usize % 8) % 8;
    v.resize(k, 0);
    v.extend_from_slice(buf);
    Elf64::from_bytes(&v[k..]).ok().map(|e| e.entry_point())
}

/// The entry point of the image, `None` when it is no ELF64 image.
pub fn entry_point(buf: &[u8]) -> (r: Option<u64>)
    ensures
        r == entry_of(buf@),
{
    entry_at(buf)
}

/// The section headers of image `b` from index `i` on, up to the first index
/// that names none.
pub open spec fn sections_from(b: Seq<u8>, i: int) -> Seq<SectionInfo>
    decreases 0x10000 - i,
{
    if i < 0 || i >= 0x10000 {
        Seq::empty()
    } else {
        match section_of(b, i as usize) {
            Some(s) => seq![s] + sections_from(b, i + 1),
            None => Seq::empty(),
        }
    }
}

/// The section headers of image `b`, in order.
pub open spec fn sections_of(b: Seq<u8>) -> Seq<SectionInfo> {
    sections_from(b, 0)
}

/// The section headers of the image, in order: those at indices `0..n`,
/// where index `n` is the first that names none.
pub fn sections(buf: &[u8]) -> (r: Vec<SectionInfo>)
    requires
        shoff_aligned(buf@),
    ensures
        r@ == sections_of(buf@),
{
    let mut r: Vec<SectionInfo> = Vec::new();
    let mut i: usize = 0;
    loop
        invariant
            i == r@.len(),
            i <= 0x10000,
            shoff_aligned(buf@),
            sections_of(buf@) == r@ + sections_from(buf@, i as int),
        decreases 0x10000 - i,
    {
        let got = section_at(buf, i);
        match got {
            Some(s) => {
                proof {
                    assert(sections_from(buf@, i as int) == seq![s] + sections_from(buf@, i + 1));
                    assert(r@.push(s) + sections_from(buf@, i + 1) =~= r@ + (seq![s] + sections_from(buf@, i + 1)));
                }
                r.push(s);
                i = i + 1;
            },
            None => {
                proof {
                    assert(r@ + sections_from(buf@, i as int) =~= r@);
                }
                return r;
            },
        }
    }
}

/// The table of section headers starts at a multiple of 8.
pub fn shoff_is_aligned(buf: &[u8]) -> (r: bool)
    ensures
        r == shoff_aligned(buf@),
{
    if buf.len() < 64 {
        return true;
    }
    match read_u64(buf, 40) {
        Some(o) => o % 8 == 0,
        None => true,
    }
}

/// The little-endian `u64` at byte `off` of `s`.
pub open spec fn le_u64(s: Seq<u8>, off: int) -> u64 {
    (s[off] as u64) | ((s[off + 1] as u64) << 8u64) | ((s[off + 2] as u64) << 16u64) | ((s[off + 3] as u64) << 24u64)
        | ((s[off + 4] as u64) << 32u64) | ((s[off + 5] as u64) << 40u64) | ((s[off + 6] as u64) << 48u64)
        | ((s[off + 7] as u64) << 56u64)
}

/// The little-endian `u32` at byte `off` of `s`.
pub open spec fn le_u32(s: Seq<u8>, off: int) -> u32 {
    (s[off] as u32) | ((s[off + 1] as u32) << 8u32) | ((s[off + 2] as u32) << 16u32) | ((s[off + 3] as u32) << 24u32)
}

/// Reads the little-endian `u64` at `off`, `None` past the end of `buf`.
pub fn read_u64(buf: &[u8], off: usize) -> (r: Option<u64>)
    ensures
        r == (if off + 8 <= buf@.len() { Some(le_u64(buf@, off as int)) } else { None::<u64> }),
{
    if off > buf.len() || buf.len() - off < 8 {
        return None;
    }
    let b = slice_subrange(buf, off, off + 8);
    Some((b[0] as u64) | ((b[1] as u64) << 8u64) | ((b[2] as u64) << 16u64) | ((b[3] as u64) << 24u64)
        | ((b[4] as u64) << 32u64) | ((b[5] as u64) << 40u64) | ((b[6] as u64) << 48u64)
        | ((b[7] as u64) << 56u64))
}

/// Reads the little-endian `u32` at `off`, `None` past the end of `buf`.
pub fn read_u32(buf: &[u8], off: usize) -> (r: Option<u32>)
    ensures
        r == (if off + 4 <= buf@.len() { Some(le_u32(buf@, off as int)) } else { None::<u32> }),
{
    if off > buf.len() || buf.len() - off < 4 {
        return None;
    }
    let b = slice_subrange(buf, off, off + 4);
    Some((b[0] as u32) | ((b[1] as u32) << 8u32) | ((b[2] as u32) << 16u32) | ((b[3] as u32) << 24u32))
}

/// Tag of the entry that ends the dynamic section.
pub const DT_NULL: u64 = 0;
pub const DT_STRTAB: u64 = 5;
pub const DT_SYMTAB: u64 = 6;
pub const DT_RELA: u64 = 7;
pub const DT_RELASZ: u64 = 8;
pub const DT_REL: u64 = 17;

/// Bytes of one dynamic entry, of one explicit-addend relocation and of one symbol.
pub const DYN_ENTRY_SIZE: usize = 16;
pub const RELA_ENTRY_SIZE: usize = 24;
pub const SYM_ENTRY_SIZE: usize = 24;

/// The value of the first entry tagged `tag` among the dynamic entries from
/// byte `pos` to `end` of `b`; the scan stops at an entry tagged `DT_NULL`.
pub open spec fn dyn_find(b: Seq<u8>, pos: int, end: int, tag: u64) -> Option<u64>
    decreases end - pos,
{
    if pos < 0 || pos + 16 > end || pos + 16 > b.len() {
        None
    } else if le_u64(b, pos) == DT_NULL {
        None
    } else if le_u64(b, pos) == tag {
        Some(le_u64(b, pos + 8))
    } else {
        dyn_find(b, pos + 16, end, tag)
    }
}

/// The file offset of virtual address `a`: through the first section with
/// bytes in the file whose range holds `a`.
pub open spec fn file_offset_of(secs: Seq<SectionInfo>, a: u64) -> Option<int>
    decreases secs.len(),
{
    if secs.len() == 0 {
        None
    } else if !secs[0].nobits && secs[0].addr <= a && a < secs[0].addr + secs[0].size {
        Some(secs[0].offset + (a - secs[0].addr))
    } else {
        file_offset_of(secs.drop_first(), a)
    }
}

/// An offset, where it fits in a `u64`.
pub open spec fn fit_u64(o: Option<int>) -> Option<u64> {
    match o {
        Some(v) => if 0 <= v <= u64::MAX { Some(v as u64) } else { None },
        None => None,
    }
}

/// The file offset of the table that the dynamic entry tagged `tag` points
/// to, where it fits in a `usize`.
pub open spec fn table_offset(b: Seq<u8>, secs: Seq<SectionInfo>, start: int, end: int, tag: u64) -> Option<usize> {
    match dyn_find(b, start, end, tag) {
        Some(a) => match file_offset_of(secs, a) {
            Some(o) => if 0 <= o <= usize::MAX { Some(o as usize) } else { None },
            None => None,
        },
        None => None,
    }
}

/// Index of the first zero byte of `b` at or after `p`, or the length of `b`.
pub open spec fn cstr_end(b: Seq<u8>, p: int) -> int
    decreases b.len() - p,
{
    if p < 0 || p >= b.len() {
        b.len() as int
    } else if b[p] == 0 {
        p
    } else {
        cstr_end(b, p + 1)
    }
}

/// An explicit-addend relocation entry.
#[derive(Clone, Copy, Debug, PartialEq, Eq, Structural)]
pub struct Rela {
    /// Virtual address of the slot to fill.
    pub offset: u64,
    /// Symbol index (high 32 bits) and relocation type (low 32 bits).
    pub info: u64,
    pub addend: u64,
}

/// The relocation entry at byte `off` of `b`.
pub open spec fn rela_at(b: Seq<u8>, off: int) -> Rela {
    Rela { offset: le_u64(b, off), info: le_u64(b, off + 8), addend: le_u64(b, off + 16) }
}

/// The `count` relocation entries from byte `off` of `b` on.
pub open spec fn rela_entries(b: Seq<u8>, off: int, count: int) -> Seq<Rela> {
    Seq::new(count as nat, |i: int| rela_at(b, off + i * 24))
}

/// The relocation table of a dynamic section.
#[derive(Clone, Debug, PartialEq, Eq)]
pub enum RelTable {
    /// Explicit-addend entries.
    RELA(Vec<Rela>),
    /// Implicit-addend entries, which the loader does not process.
    REL,
}

/// A view of the `.dynamic` section of an image: its relocation table and
/// the file offsets of its symbol and string tables.
#[derive(Clone, Debug)]
pub struct Dynamic {
    pub rel: Option<RelTable>,
    pub symtab: Option<usize>,
    pub strtab: Option<usize>,
}

/// The first dynamic entry tagged `tag` among those in `[start, end)`.
pub fn find_dyn(buf: &[u8], start: usize, end: usize, tag: u64) -> (r: Option<u64>)
    ensures
        r == dyn_find(buf@, start as int, end as int, tag),
{
    let mut pos: usize = start;
    while pos <= end && end - pos >= DYN_ENTRY_SIZE && pos <= buf.len() && buf.len() - pos >= DYN_ENTRY_SIZE
        invariant
            start <= pos,
            dyn_find(buf@, start as int, end as int, tag) == dyn_find(buf@, pos as int, end as int, tag),
        decreases end - pos,
    {
        let t = read_u64(buf, pos).unwrap();
        if t == DT_NULL {
            return None;
        }
        if t == tag {
            return read_u64(buf, pos + 8);
        }
        pos = pos + DYN_ENTRY_SIZE;
    }
    None
}

/// The file offset of virtual address `a` through the sections `secs`.
pub fn file_offset(secs: &Vec<SectionInfo>, a: u64) -> (r: Option<u64>)
    ensures
        r == fit_u64(file_offset_of(secs@, a)),
{
    let mut i: usize = 0;
    proof {
        assert(secs@.subrange(0, secs@.len() as int) =~= secs@);
    }
    while i < secs.len()
        invariant
            i <= secs@.len(),
            file_offset_of(secs@, a) == file_offset_of(secs@.subrange(i as int, secs@.len() as int), a),
        decreases secs@.len() - i,
    {
        let s = &secs[i];
        proof {
            let rest = secs@.subrange(i as int, secs@.len() as int);
            assert(rest[0] == secs@[i as int]);
            assert(rest.drop_first() =~= secs@.subrange(i as int + 1, secs@.len() as int));
        }
        if !s.nobits && s.addr <= a && a - s.addr < s.size {
            let d = a - s.addr;
            if s.offset > u64::MAX - d {
                return None;
            }
            return Some(s.offset + d);
        }
        i = i + 1;
    }
    None
}

/// Reads `count` relocation entries from byte `off` on, `None` when they do
/// not all lie within `buf`.
pub fn read_rela_table(buf: &[u8], off: usize, count: usize) -> (r: Option<Vec<Rela>>)
    ensures
        off + count * RELA_ENTRY_SIZE <= buf@.len() ==> (r matches Some(v)
            && v@ == rela_entries(buf@, off as int, count as int)),
        off + count * RELA_ENTRY_SIZE > buf@.len() ==> r is None,
{
    if off > buf.len() || (buf.len() - off) / RELA_ENTRY_SIZE < count {
        proof {
            if off <= buf@.len() {
                assert(off + count * 24 > buf@.len()) by (nonlinear_arith)
                    requires
                        (buf@.len() - off) / 24 < count,
                ;
            }
        }
        return None;
    }
    proof {
        assert(off + count * 24 <= buf@.len()) by (nonlinear_arith)
            requires
                (buf@.len() - off) / 24 >= count,
                off <= buf@.len(),
        ;
    }
    let n = buf.len();
    let mut v: Vec<Rela> = Vec::new();
    let mut i: usize = 0;
    while i < count
        invariant
            n == buf@.len(),
            i <= count,
            off + count * 24 <= buf@.len(),
            v@.len() == i,
            forall|k: int| 0 <= k < i ==> #[trigger] v@[k] == rela_at(buf@, off + k * 24),
        decreases count - i,
    {
        assert(off + i * 24 + 24 <= buf@.len()) by (nonlinear_arith)
            requires
                i < count,
                off + count * 24 <= buf@.len(),
        ;
        let p = off + i * RELA_ENTRY_SIZE;
        let e = Rela {
            offset: read_u64(buf, p).unwrap(),
            info: read_u64(buf, p + 8).unwrap(),
            addend: read_u64(buf, p + 16).unwrap(),
        };
        v.push(e);
        i = i + 1;
    }
    assert(v@ =~= rela_entries(buf@, off as int, count as int));
    Some(v)
}

/// The file offset of the table that the dynamic entry tagged `tag` points to.
fn table_at(buf: &[u8], secs: &Vec<SectionInfo>, start: usize, end: usize, tag: u64) -> (r: Option<usize>)
    ensures
        r == table_offset(buf@, secs@, start as int, end as int, tag),
{
    match find_dyn(buf, start, end, tag) {
        Some(a) => match file_offset(secs, a) {
            Some(o) => if o <= usize::MAX as u64 { Some(o as usize) } else { None },
            None => None,
        },
        None => None,
    }
}

/// The dynamic entries in `[start, end)` of `b` can be read: there is no
/// explicit-addend table, or its offset and size are known and it lies
/// within `b`.
pub open spec fn parse_ok(b: Seq<u8>, secs: Seq<SectionInfo>, start: int, end: int) -> bool {
    dyn_find(b, start, end, DT_RELA) is Some ==> ({
        let o = table_offset(b, secs, start, end, DT_RELA);
        let sz = dyn_find(b, start, end, DT_RELASZ);
        o is Some && sz is Some && o.unwrap() + (sz.unwrap() / 24) * 24 <= b.len()
    })
}

/// `d` is the view of the dynamic entries in `[start, end)` of `b`: the
/// symbol and string tables they point to, and the relocation table, which
/// is explicit-addend where a `DT_RELA` entry exists, implicit-addend where
/// only a `DT_REL` entry does, and absent otherwise.
pub open spec fn parsed_from(d: Dynamic, b: Seq<u8>, secs: Seq<SectionInfo>, start: int, end: int) -> bool {
    &&& d.symtab == table_offset(b, secs, start, end, DT_SYMTAB)
    &&& d.strtab == table_offset(b, secs, start, end, DT_STRTAB)
    &&& if dyn_find(b, start, end, DT_RELA) is Some {
        d.rel matches Some(RelTable::RELA(v)) && v@ == rela_entries(
            b,
            table_offset(b, secs, start, end, DT_RELA).unwrap() as int,
            (dyn_find(b, start, end, DT_RELASZ).unwrap() / 24) as int,
        )
    } else if dyn_find(b, start, end, DT_REL) is Some {
        d.rel == Some(RelTable::REL)
    } else {
        d.rel is None
    }
}

impl Dynamic {
    /// Reads the dynamic section in bytes `[start, end)` of the image. Table
    /// addresses are taken to file offsets through `secs`. `None` when the
    /// explicit-addend table or its size cannot be found or read.
    pub fn parse(buf: &[u8], secs: &Vec<SectionInfo>, start: usize, end: usize) -> (r: Option<Dynamic>)
        ensures
            r is Some <==> parse_ok(buf@, secs@, start as int, end as int),
            r matches Some(d) ==> parsed_from(d, buf@, secs@, start as int, end as int),
    {
        let blen = buf.len();
        let symtab = table_at(buf, secs, start, end, DT_SYMTAB);
        let strtab = table_at(buf, secs, start, end, DT_STRTAB);
        let rel = match find_dyn(buf, start, end, DT_RELA) {
            Some(_) => {
                let o = table_at(buf, secs, start, end, DT_RELA);
                let sz = find_dyn(buf, start, end, DT_RELASZ);
                match (o, sz) {
                    (Some(o), Some(sz)) => {
                        let count = sz / (RELA_ENTRY_SIZE as u64);
                        if count > usize::MAX as u64 {
                            proof {
                                assert(o + (sz / 24) * 24 > buf@.len()) by (nonlinear_arith)
                                    requires
                                        sz / 24 > usize::MAX,
                                        buf@.len() == blen,
                                ;
                            }
                            return None;
                        }
                        match read_rela_table(buf, o, count as usize) {
                            Some(v) => Some(RelTable::RELA(v)),
                            None => {
                                return None;
                            },
                        }
                    },
                    _ => {
                        return None;
                    },
                }
            },
            None => match find_dyn(buf, start, end, DT_REL) {
                Some(_) => Some(RelTable::REL),
                None => None,
            },
        };
        Some(Dynamic { rel, symtab, strtab })
    }

    /// Byte offset of the name of symbol `index`: the symbol's name field,
    /// read from the symbol table, added to the string table's offset.
    pub open spec fn name_start(&self, b: Seq<u8>, index: u64) -> Option<int> {
        match (self.symtab, self.strtab) {
            (Some(st), Some(sr)) => {
                let at = st + index * 24;
                if at + 24 <= b.len() && sr + le_u32(b, at) <= b.len() {
                    Some(sr + le_u32(b, at))
                } else {
                    None
                }
            },
            _ => None,
        }
    }

    /// The name of symbol `index`: the bytes of the string table from its
    /// name offset up to the next zero byte. `None` when the tables are
    /// absent or the symbol or its name lies past the end of `buf`.
    pub fn resolve_sym(&self, buf: &[u8], index: u64) -> (r: Option<Vec<u8>>)
        ensures
            r is Some <==> self.name_start(buf@, index) is Some,
            r matches Some(n) ==> n@ == buf@.subrange(
                self.name_start(buf@, index).unwrap(),
                cstr_end(buf@, self.name_start(buf@, index).unwrap()),
            ),
    {
        let (st, sr) = match (self.symtab, self.strtab) {
            (Some(st), Some(sr)) => (st, sr),
            _ => {
                return None;
            },
        };
        let len = buf.len();
        if st > len || ((len - st) / SYM_ENTRY_SIZE) as u64 <= index {
            proof {
                if st <= len {
                    assert(st + index * 24 + 24 > len) by (nonlinear_arith)
                        requires
                            (len - st) / 24 <= index,
                            st <= len,
                    ;
                }
            }
            return None;
        }
        proof {
            assert(st + index * 24 + 24 <= len) by (nonlinear_arith)
                requires
                    (len - st) / 24 > index,
                    st <= len,
            ;
        }
        let at = st + (index as usize) * SYM_ENTRY_SIZE;
        let name_off = read_u32(buf, at).unwrap();
        if sr > len || len - sr < name_off as usize {
            return None;
        }
        let p = sr + name_off as usize;
        let mut q: usize = p;
        while q < len && buf[q] != 0
            invariant
                len == buf@.len(),
                p <= q <= len,
                cstr_end(buf@, p as int) == cstr_end(buf@, q as int),
                forall|k: int| p <= k < q ==> buf@[k] != 0,
            decreases len - q,
        {
            q = q + 1;
        }
        Some(vstd::slice::slice_to_vec(slice_subrange(buf, p, q)))
    }
}

} // verus!
