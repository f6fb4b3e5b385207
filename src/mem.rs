//! Physical and virtual addresses, page numbers and page rounding.
use vstd::prelude::*;

verus! {

/// Bytes in one page.
pub const PAGE_SIZE: usize = 4096;

/// Bits of the offset within a page.
pub const PAGE_SIZE_BITS: usize = 12;

/// Mask of a physical address (56 bits). The masks are `u64` so that they
/// stay literals on every target; an address is masked through `u64`.
pub const PA_MASK: u64 = 0xff_ffff_ffff_ffff;

/// Mask of a virtual address (39 bits).
pub const VA_MASK: u64 = 0x7f_ffff_ffff;

/// Mask of a physical page number (56 - 12 bits).
pub const PPN_MASK: u64 = 0xfff_ffff_ffff;

/// Mask of a virtual page number (39 - 12 bits).
pub const VPN_MASK: u64 = 0x7ff_ffff;

/// Number of the page that holds byte address `a`.
pub open spec fn floor_page(a: int) -> int {
    a / PAGE_SIZE as int
}

/// Number of the first page that starts at or after byte address `a`.
pub open spec fn ceil_page(a: int) -> int {
    (a + PAGE_SIZE as int - 1) / PAGE_SIZE as int
}

/// The three 9-bit table indices of a page number, most significant first.
pub open spec fn index_seq(v: usize) -> Seq<usize> {
    seq![(v >> 18usize) & 511usize, (v >> 9usize) & 511usize, v & 511usize]
}

/// The page number whose table indices are `s`, most significant first.
pub open spec fn assemble_indexes(s: Seq<usize>) -> int {
    s[0] * 512 * 512 + s[1] * 512 + s[2]
}

#[derive(Copy, Clone, Debug, PartialEq, Eq, Structural, PartialOrd, Ord)]
pub struct PhysAddr(pub usize);

#[derive(Copy, Clone, Debug, PartialEq, Eq, Structural, PartialOrd, Ord)]
pub struct VirtAddr(pub usize);

#[derive(Copy, Clone, Debug, PartialEq, Eq, Structural, PartialOrd, Ord)]
pub struct PhysPageNum(pub usize);

#[derive(Copy, Clone, Debug, PartialEq, Eq, Structural, PartialOrd, Ord)]
pub struct VirtPageNum(pub usize);

proof fn lemma_offset_is_mod(a: usize)
    ensures
        a & 4095usize == a % 4096,
{
    assert(a & 4095usize == a % 4096) by (bit_vector);
}

/// Page number rounded up without overflow: `a / 4096`, plus one when a
/// partial page remains.
fn ceil_of(a: usize) -> (r: usize)
    ensures
        r as int == ceil_page(a as int),
{
    let q: usize = a / PAGE_SIZE;
    if a % PAGE_SIZE != 0 {
        q + 1
    } else {
        q
    }
}

impl From<usize> for PhysAddr {
    /// Keeps the low 56 bits.
    fn from(v: usize) -> (r: PhysAddr) {
        PhysAddr(((v as u64) & PA_MASK) as usize)
    }
}

impl vstd::std_specs::convert::FromSpecImpl<usize> for PhysAddr {
    open spec fn obeys_from_spec() -> bool {
        true
    }

    open spec fn from_spec(v: usize) -> PhysAddr {
        PhysAddr(((v as u64) & PA_MASK) as usize)
    }
}

impl From<usize> for VirtAddr {
    /// Keeps the low 39 bits.
    fn from(v: usize) -> (r: VirtAddr) {
        VirtAddr(((v as u64) & VA_MASK) as usize)
    }
}

impl vstd::std_specs::convert::FromSpecImpl<usize> for VirtAddr {
    open spec fn obeys_from_spec() -> bool {
        true
    }

    open spec fn from_spec(v: usize) -> VirtAddr {
        VirtAddr(((v as u64) & VA_MASK) as usize)
    }
}

impl From<usize> for PhysPageNum {
    /// Keeps the low 44 bits.
    fn from(v: usize) -> (r: PhysPageNum) {
        PhysPageNum(((v as u64) & PPN_MASK) as usize)
    }
}

impl vstd::std_specs::convert::FromSpecImpl<usize> for PhysPageNum {
    open spec fn obeys_from_spec() -> bool {
        true
    }

    open spec fn from_spec(v: usize) -> PhysPageNum {
        PhysPageNum(((v as u64) & PPN_MASK) as usize)
    }
}

impl From<usize> for VirtPageNum {
    /// Keeps the low 27 bits.
    fn from(v: usize) -> (r: VirtPageNum) {
        VirtPageNum(((v as u64) & VPN_MASK) as usize)
    }
}

impl vstd::std_specs::convert::FromSpecImpl<usize> for VirtPageNum {
    open spec fn obeys_from_spec() -> bool {
        true
    }

    open spec fn from_spec(v: usize) -> VirtPageNum {
        VirtPageNum(((v as u64) & VPN_MASK) as usize)
    }
}

impl From<PhysAddr> for usize {
    fn from(v: PhysAddr) -> (r: usize) {
        v.0
    }
}

impl vstd::std_specs::convert::FromSpecImpl<PhysAddr> for usize {
    open spec fn obeys_from_spec() -> bool {
        true
    }

    open spec fn from_spec(v: PhysAddr) -> usize {
        v.0
    }
}

impl From<PhysPageNum> for usize {
    fn from(v: PhysPageNum) -> (r: usize) {
        v.0
    }
}

impl vstd::std_specs::convert::FromSpecImpl<PhysPageNum> for usize {
    open spec fn obeys_from_spec() -> bool {
        true
    }

    open spec fn from_spec(v: PhysPageNum) -> usize {
        v.0
    }
}

impl From<PhysPageNum> for PhysAddr {
    /// The address of the page's first byte.
    fn from(v: PhysPageNum) -> (r: PhysAddr) {
        PhysAddr(v.0 << 12usize)
    }
}

impl vstd::std_specs::convert::FromSpecImpl<PhysPageNum> for PhysAddr {
    open spec fn obeys_from_spec() -> bool {
        true
    }

    open spec fn from_spec(v: PhysPageNum) -> PhysAddr {
        PhysAddr(v.0 << 12usize)
    }
}

impl From<VirtPageNum> for VirtAddr {
    /// The address of the page's first byte.
    fn from(v: VirtPageNum) -> (r: VirtAddr) {
        VirtAddr(v.0 << 12usize)
    }
}

impl vstd::std_specs::convert::FromSpecImpl<VirtPageNum> for VirtAddr {
    open spec fn obeys_from_spec() -> bool {
        true
    }

    open spec fn from_spec(v: VirtPageNum) -> VirtAddr {
        VirtAddr(v.0 << 12usize)
    }
}

impl PhysPageNum {
    /// The address of the page's first byte.
    pub fn addr(&self) -> (r: PhysAddr)
        requires
            self.0 * PAGE_SIZE <= usize::MAX,
        ensures
            r.0 == self.0 * PAGE_SIZE,
    {
        PhysAddr(self.0 * PAGE_SIZE)
    }
}

impl VirtPageNum {
    /// The address of the page's first byte.
    pub fn addr(&self) -> (r: VirtAddr)
        requires
            self.0 * PAGE_SIZE <= usize::MAX,
        ensures
            r.0 == self.0 * PAGE_SIZE,
    {
        VirtAddr(self.0 * PAGE_SIZE)
    }
}

impl PhysAddr {
    /// The page that starts at this address, which must be page-aligned.
    pub fn aligned_page(&self) -> (r: PhysPageNum)
        requires
            self.0 % PAGE_SIZE == 0,
        ensures
            r.0 * PAGE_SIZE == self.0,
            r.0 as int == floor_page(self.0 as int),
    {
        self.floor()
    }

    /// Offset of the address within its page.
    pub fn page_offset(&self) -> (r: usize)
        ensures
            r == self.0 % PAGE_SIZE,
    {
        proof {
            lemma_offset_is_mod(self.0);
        }
        self.0 & (PAGE_SIZE - 1)
    }

    /// The page that holds the address.
    pub fn floor(&self) -> (r: PhysPageNum)
        ensures
            r.0 as int == floor_page(self.0 as int),
    {
        PhysPageNum(self.0 / PAGE_SIZE)
    }

    /// The first page that starts at or after the address.
    pub fn ceil(&self) -> (r: PhysPageNum)
        ensures
            r.0 as int == ceil_page(self.0 as int),
    {
        PhysPageNum(ceil_of(self.0))
    }
}

impl VirtAddr {
    /// The page that starts at this address, which must be page-aligned.
    pub fn aligned_page(&self) -> (r: VirtPageNum)
        requires
            self.0 % PAGE_SIZE == 0,
        ensures
            r.0 * PAGE_SIZE == self.0,
            r.0 as int == floor_page(self.0 as int),
    {
        self.floor()
    }

    /// Offset of the address within its page.
    pub fn page_offset(&self) -> (r: usize)
        ensures
            r == self.0 % PAGE_SIZE,
    {
        proof {
            lemma_offset_is_mod(self.0);
        }
        self.0 & (PAGE_SIZE - 1)
    }

    /// The page that holds the address.
    pub fn floor(&self) -> (r: VirtPageNum)
        ensures
            r.0 as int == floor_page(self.0 as int),
    {
        VirtPageNum(self.0 / PAGE_SIZE)
    }

    /// The first page that starts at or after the address.
    pub fn ceil(&self) -> (r: VirtPageNum)
        ensures
            r.0 as int == ceil_page(self.0 as int),
    {
        VirtPageNum(ceil_of(self.0))
    }
}

impl VirtPageNum {
    /// The three page-table indices of this page, most significant level first.
    pub fn indexes(&self) -> (r: [usize; 3])
        ensures
            r@ == index_seq(self.0),
    {
        let vpn: usize = self.0;
        let r: [usize; 3] = [(vpn >> 18usize) & 511usize, (vpn >> 9usize) & 511usize, vpn & 511usize];
        proof {
            assert(r@ =~= index_seq(self.0));
        }
        r
    }

    /// The page number as an integer.
    pub fn number(&self) -> (r: usize)
        ensures
            r == self.0,
    {
        self.0
    }
}

/// Rounding brackets every address: the page below it starts at or before it,
/// the page above it starts at or after it, the two are at most one page apart,
/// and rounding down the start of the upper page gives that page again.
pub proof fn lemma_rounding_brackets(a: usize)
    ensures
        floor_page(a as int) * PAGE_SIZE <= a,
        a <= ceil_page(a as int) * PAGE_SIZE,
        floor_page(a as int) <= ceil_page(a as int) <= floor_page(a as int) + 1,
        floor_page(ceil_page(a as int) * PAGE_SIZE) == ceil_page(a as int),
        ceil_page(ceil_page(a as int) * PAGE_SIZE) == ceil_page(a as int),
{
    let c = ceil_page(a as int);
    assert(floor_page(a as int) * 4096 <= a) by (nonlinear_arith);
    assert(a <= c * 4096) by (nonlinear_arith)
        requires
            c == (a + 4095) / 4096,
    ;
    assert(floor_page(c * 4096) == c) by (nonlinear_arith)
        requires
            c >= 0,
    ;
    assert(ceil_page(c * 4096) == c) by (nonlinear_arith)
        requires
            c >= 0,
    ;
}

/// On a page-aligned address, rounding down and rounding up agree with the
/// exact quotient by the page size.
pub proof fn lemma_aligned_rounding(a: usize)
    requires
        a % PAGE_SIZE == 0,
    ensures
        floor_page(a as int) == a / PAGE_SIZE,
        ceil_page(a as int) == a / PAGE_SIZE,
{
}

/// Putting the three table indices of a page number back together, most
/// significant first, gives the page number again for every page number of the
/// 39-bit virtual address space.
pub proof fn lemma_indexes_reassemble(v: usize)
    requires
        v <= VPN_MASK as int,
    ensures
        assemble_indexes(index_seq(v)) == v,
{
    let a = (v >> 18usize) & 511usize;
    let b = (v >> 9usize) & 511usize;
    let c = v & 511usize;
    assert(a * 262144 + b * 512 + c == v) by (bit_vector)
        requires
            v <= 0x7ff_ffffusize,
            a == (v >> 18usize) & 511usize,
            b == (v >> 9usize) & 511usize,
            c == v & 511usize,
    ;
    assert(a * 512 * 512 == a * 262144) by (nonlinear_arith);
}

} // verus!
