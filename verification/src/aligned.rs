//! Buffers for direct input and output: memory that starts on a page boundary
//! and fills whole pages.
use crate::memory::Memory;
use vstd::arithmetic::power2::is_pow2;
use vstd::prelude::*;

verus! {

/// Memory of this size and alignment cannot be laid out.
#[derive(Debug, Clone, Copy, PartialEq, Eq, Structural)]
pub struct LayoutError;

/// Whether `size` bytes can be laid out with the alignment `align`: a power of
/// two, such that the size, rounded up to it, is no larger than `isize::MAX`.
pub open spec fn layout_fits(size: int, align: int) -> bool {
    is_pow2(align) && size + (align - size % align) % align <= isize::MAX
}

/// `rustix::param::page_size` gives the page size of the process. Which one
/// that is depends on the machine.
#[verifier::external_body]
fn page_size() -> (n: usize) {
    rustix::param::page_size()
}

/// `Layout::from_size_align` gives a layout of this size, or an error if
/// the size cannot be laid out with this alignment.
#[verifier::external_body]
fn layout_size(size: usize, align: usize) -> (r: Result<usize, LayoutError>)
    ensures
        r == (if layout_fits(size as int, align as int) {
            Ok::<usize, LayoutError>(size)
        } else {
            Err(LayoutError)
        }),
{
    std::alloc::Layout::from_size_align(size, align).map(|l| l.size()).map_err(|_| LayoutError)
}

/// How far behind `address` the next multiple of `align` is.
pub fn boundary_behind(address: usize, align: usize) -> (start: usize)
    requires
        align > 0,
    ensures
        start < align,
        (address + start) % align as int == 0,
{
    let over: usize = address % align;
    proof {
        let (a, m) = (address as int, align as int);
        vstd::arithmetic::div_mod::lemma_fundamental_div_mod(a, m);
        assert(a - a % m + m == (a / m + 1) * m) by (nonlinear_arith)
            requires
                a == m * (a / m) + a % m,
        ;
        vstd::arithmetic::div_mod::lemma_mod_multiples_basic(a / m + 1, m);
    }
    if over == 0 {
        0
    } else {
        align - over
    }
}

/// `n` zero bytes.
pub open spec fn zeros(n: nat) -> Seq<u8> {
    Seq::new(n, |i: int| 0u8)
}

/// The size of whole pages is a multiple of the page size.
proof fn lemma_whole_pages(page_size: usize, size: usize)
    requires
        page_size > 0,
    ensures
        (page_size * size) % page_size as int == 0,
        size == 0 ==> page_size * size == 0,
        size > 0 ==> page_size * size >= page_size,
{
    vstd::arithmetic::div_mod::lemma_mod_multiples_basic(size as int, page_size as int);
    assert(page_size * size == size * page_size) by (nonlinear_arith);
    if size > 0 {
        assert(page_size * size >= page_size) by (nonlinear_arith)
            requires
                size > 0,
        ;
    }
}

/// Of two powers of two, the larger one is a multiple of the other.
proof fn lemma_pow2_divides(p: int, q: int)
    requires
        is_pow2(p),
        is_pow2(q),
        p <= q,
    ensures
        q % p == 0,
    decreases q,
{
    reveal(is_pow2);
    if p > 1 {
        let (a, b) = (p / 2, q / 2);
        lemma_pow2_divides(a, b);
        vstd::arithmetic::div_mod::lemma_fundamental_div_mod(b, a);
        assert(q == (b / a) * p) by (nonlinear_arith)
            requires
                q == 2 * b,
                p == 2 * a,
                b == a * (b / a),
        ;
        vstd::arithmetic::div_mod::lemma_mod_multiples_basic(b / a, p);
    }
}

/// How much memory holds `size` bytes from a page boundary on: the boundary comes
/// within a page, less one byte.
pub open spec fn room_for(size: int, page_size: usize) -> int {
    if size == 0 {
        0
    } else {
        size + page_size - 1
    }
}

/// Whether there can be memory for `size` pages of `page_size` bytes: they can be
/// laid out.
pub open spec fn storage_fits(page_size: usize, size: usize) -> bool {
    layout_fits(page_size * size, page_size as int)
}

/// There can be memory for the pages exactly if the page size is a power of two and
/// one page more would still end at `isize::MAX + 1` or before. Together with the bytes
/// in front of the first page boundary they then take no more than `isize::MAX`.
pub proof fn law_storage_fits(page_size: usize, size: usize)
    ensures
        storage_fits(page_size, size) <==> is_pow2(page_size as int) && page_size * size
            <= isize::MAX + 1 - page_size,
        storage_fits(page_size, size) ==> 0 <= room_for(page_size * size, page_size) <= isize::MAX,
{
    reveal(is_pow2);
    let p = page_size as int;
    if is_pow2(p) {
        let n = page_size * size;
        let m = isize::MAX + 1;
        lemma_whole_pages(page_size, size);
        vstd::arithmetic::div_mod::lemma_mod_self_0(p);
        vstd::layout::signed_int_min_max_values();
        vstd::layout::unsigned_int_max_values();
        vstd::arithmetic::power2::lemma2_to64();
        vstd::arithmetic::power2::lemma2_to64_rest();
        let e = (isize::BITS - 1) as nat;
        vstd::arithmetic::power2::lemma_pow2(e);
        assert(vstd::arithmetic::power2::is_pow2_exists(m)) by {
            assert(vstd::arithmetic::power::pow(2, e) == m);
        }
        vstd::arithmetic::power2::is_pow2_equiv(m);
        if p > m {
            lemma_pow2_divides(m, p);
            assert(p < 2 * m);
            vstd::arithmetic::div_mod::lemma_fundamental_div_mod(p, m);
            assert(false) by (nonlinear_arith)
                requires
                    m < p < 2 * m,
                    p == m * (p / m),
            ;
        }
        lemma_pow2_divides(p, m);
        if n < m {
            let (a, b) = (n / p, m / p);
            vstd::arithmetic::div_mod::lemma_fundamental_div_mod(n, p);
            vstd::arithmetic::div_mod::lemma_fundamental_div_mod(m, p);
            assert(n + p <= m) by (nonlinear_arith)
                requires
                    n < m,
                    n == p * a,
                    m == p * b,
                    p > 0,
            ;
        }
    }
}

/// Memory for `size` pages of `page_size` bytes, filled with zeros.
pub fn storage_for(page_size: usize, size: usize) -> (r: Result<Memory, LayoutError>)
    ensures
        r is Ok <==> storage_fits(page_size, size),
        r matches Ok(storage) ==> storage@ == zeros(
            room_for(page_size * size, page_size) as nat,
        ),
{
    proof {
        reveal(is_pow2);
        law_storage_fits(page_size, size);
    }
    let total: usize = match page_size.checked_mul(size) {
        Some(n) => n,
        None => {
            return Err(LayoutError);
        },
    };
    match layout_size(total, page_size) {
        Err(e) => Err(e),
        Ok(n) => {
            let room: usize = if n == 0 {
                0
            } else {
                n + (page_size - 1)
            };
            let bytes: Vec<u8> = vec![0u8; room];
            assert(bytes@ =~= zeros(room as nat));
            Ok(Memory::of(bytes))
        },
    }
}

/// A buffer of whole pages that starts on a page boundary.
#[derive(Debug)]
pub struct PageAlignedBuffer {
    storage: Memory,
    start: usize,
    size: usize,
    page_size: usize,
}

impl View for PageAlignedBuffer {
    type V = Seq<u8>;

    closed spec fn view(&self) -> Seq<u8> {
        self.storage@.subrange(self.start as int, self.start + self.size)
    }
}

impl PageAlignedBuffer {
    /// The buffer lies in its memory, holds whole pages and, unless it is empty, starts
    /// on a page boundary.
    pub closed spec fn wf(&self) -> bool {
        &&& self.start + self.size <= self.storage@.len() <= usize::MAX
        &&& layout_fits(self.size as int, self.page_size as int)
        &&& self.size as int % self.page_size as int == 0
        &&& self.size > 0 ==> (self.storage.spec_address() + self.start) % self.page_size as int
            == 0
    }

    /// The size of a page.
    pub closed spec fn spec_page_size(&self) -> usize {
        self.page_size
    }

    /// Where in its memory the buffer starts.
    pub closed spec fn spec_start(&self) -> int {
        self.start as int
    }

    /// The address at which the buffer starts.
    pub closed spec fn spec_address(&self) -> nat {
        (self.storage.spec_address() + self.start) as nat
    }

    /// The contents are as long as the buffer, fill whole pages and start on a page
    /// boundary.
    pub proof fn lemma_wf(&self)
        requires
            self.wf(),
        ensures
            self@.len() <= usize::MAX,
            is_pow2(self.spec_page_size() as int),
            self.spec_page_size() > 0,
            self@.len() as int % self.spec_page_size() as int == 0,
            self@.len() > 0 ==> self.spec_address() as int % self.spec_page_size() as int == 0,
            self@.len() > 0 ==> storage_fits(self.spec_page_size(), 1),
    {
        reveal(is_pow2);
        vstd::arithmetic::div_mod::lemma_mod_self_0(self.page_size as int);
        if 0 < self.size < self.page_size {
            vstd::arithmetic::div_mod::lemma_small_mod(self.size as nat, self.page_size as nat);
        }
    }

    /// A buffer of `size` pages, filled with zeros, in the page size of the process.
    /// The machine decides which one that is, and `with_page_size` whether there is a
    /// buffer then.
    pub fn new(size: usize) -> (r: Result<Self, LayoutError>)
        ensures
            r matches Ok(b) ==> {
                &&& b.wf()
                &&& storage_fits(b.spec_page_size(), size)
                &&& b.spec_start() < b.spec_page_size()
                &&& size > 0 ==> b.spec_address() as int % b.spec_page_size() as int == 0
                &&& b@ == zeros((b.spec_page_size() * size) as nat)
            },
    {
        Self::with_page_size(page_size(), size)
    }

    /// The buffer of `size` bytes, which are whole pages, that lies from `start` on in
    /// `storage`, where a page boundary is, if there is room for it.
    pub fn placed(storage: Memory, start: usize, size: usize, page_size: usize) -> (r: Result<
        PageAlignedBuffer,
        LayoutError,
    >)
        requires
            layout_fits(size as int, page_size as int),
            size as int % page_size as int == 0,
            size > 0 ==> (storage.spec_address() + start) % page_size as int == 0,
        ensures
            r is Ok <==> start + size <= storage@.len(),
            r matches Ok(b) ==> {
                &&& b.wf()
                &&& b.spec_page_size() == page_size
                &&& b.spec_start() == start
                &&& b.spec_address() == storage.spec_address() + start
                &&& b@ == storage@.subrange(start as int, start + size)
            },
    {
        if start <= storage.len() && size <= storage.len() - start {
            Ok(PageAlignedBuffer { storage, start, size, page_size })
        } else {
            Err(LayoutError)
        }
    }

    /// A buffer of `size` pages of `page_size` bytes, filled with zeros. It starts at
    /// the first page boundary of its memory, which is large enough wherever it lies.
    pub fn with_page_size(page_size: usize, size: usize) -> (r: Result<Self, LayoutError>)
        ensures
            r is Ok <==> storage_fits(page_size, size),
            r matches Ok(b) ==> {
                &&& b.wf()
                &&& b.spec_page_size() == page_size
                &&& b.spec_start() < page_size
                &&& size > 0 ==> b.spec_address() as int % page_size as int == 0
                &&& b@ == zeros((page_size * size) as nat)
                &&& b@.len() == page_size * size
                &&& forall|i: int| 0 <= i < b@.len() ==> #[trigger] b@[i] == 0
            },
    {
        match storage_for(page_size, size) {
            Err(e) => Err(e),
            Ok(storage) => {
                proof {
                    reveal(is_pow2);
                    lemma_whole_pages(page_size, size);
                    law_storage_fits(page_size, size);
                }
                let n: usize = page_size * size;
                let start: usize = if n == 0 {
                    0
                } else {
                    boundary_behind(storage.address(), page_size)
                };
                let ghost memory = storage@;
                let r = Self::placed(storage, start, n, page_size);
                assert(memory.subrange(start as int, start + n) =~= zeros(n as nat));
                r
            },
        }
    }

    /// The aligned memory.
    pub fn as_ptr(&self) -> (bytes: &[u8])
        requires
            self.wf(),
        ensures
            bytes@ == self@,
    {
        vstd::slice::slice_subrange(self.storage.as_slice(), self.start, self.start + self.size)
    }

    /// The aligned memory, to be written to.
    pub fn as_mut_ptr(&mut self) -> (bytes: &mut [u8])
        requires
            old(self).wf(),
        ensures
            bytes@ == old(self)@,
            final(bytes)@.len() == old(self)@.len() ==> {
                &&& final(self).wf()
                &&& final(self)@ == final(bytes)@
                &&& final(self).spec_page_size() == old(self).spec_page_size()
                &&& final(self).spec_start() == old(self).spec_start()
                &&& final(self).spec_address() == old(self).spec_address()
            },
    {
        let start: usize = self.start;
        let size: usize = self.size;
        let (before, rest) = self.storage.as_mut_slice().split_at_mut(start);
        let (bytes, after) = rest.split_at_mut(size);
        bytes
    }

    /// The usable size.
    pub fn size(&self) -> (n: usize)
        requires
            self.wf(),
        ensures
            n == self@.len(),
    {
        self.size
    }

    /// The size of a page.
    pub fn page_size(&self) -> (n: usize)
        ensures
            n == self.spec_page_size(),
    {
        self.page_size
    }

    /// Puts `bytes` at position `at`.
    pub fn put(&mut self, at: usize, bytes: &[u8])
        requires
            old(self).wf(),
            at + bytes@.len() <= old(self)@.len(),
        ensures
            final(self).wf(),
            final(self).spec_page_size() == old(self).spec_page_size(),
            final(self).spec_start() == old(self).spec_start(),
            final(self).spec_address() == old(self).spec_address(),
            final(self)@ == old(self)@.take(at as int) + bytes@ + old(self)@.skip(
                at + bytes@.len(),
            ),
    {
        let ghost before = self@;
        let mut i: usize = 0;
        while i < bytes.len()
            invariant
                i <= bytes.len(),
                self.wf(),
                self.spec_page_size() == old(self).spec_page_size(),
                self.spec_start() == old(self).spec_start(),
                self.spec_address() == old(self).spec_address(),
                at + bytes@.len() <= before.len(),
                self.size == before.len(),
                self@ == before.take(at as int) + bytes@.take(i as int) + before.skip(at + i),
            decreases bytes.len() - i,
        {
            let slot: usize = self.start + at + i;
            let ghost now = self@;
            self.storage.set(slot, bytes[i]);
            assert(self@ =~= now.update(at + i, bytes@[i as int]));
            i = i + 1;
            assert(self@ =~= before.take(at as int) + bytes@.take(i as int) + before.skip(at + i));
        }
        assert(bytes@.take(i as int) == bytes@);
    }

    /// Fills the buffer with zeros from position `at` on.
    pub fn zero_from(&mut self, at: usize)
        requires
            old(self).wf(),
            at <= old(self)@.len(),
        ensures
            final(self).wf(),
            final(self).spec_page_size() == old(self).spec_page_size(),
            final(self).spec_start() == old(self).spec_start(),
            final(self).spec_address() == old(self).spec_address(),
            final(self)@ == old(self)@.take(at as int) + zeros((old(self)@.len() - at) as nat),
            final(self)@.len() == old(self)@.len(),
            forall|i: int|
                0 <= i < old(self)@.len() ==> #[trigger] final(self)@[i] == (if i < at {
                    old(self)@[i]
                } else {
                    0u8
                }),
    {
        let ghost before = self@;
        let mut i: usize = at;
        while i < self.size
            invariant
                at <= i <= self.size,
                self.wf(),
                self.spec_page_size() == old(self).spec_page_size(),
                self.spec_start() == old(self).spec_start(),
                self.spec_address() == old(self).spec_address(),
                self@.len() == before.len() == self.size,
                self@ == before.take(at as int) + zeros((i - at) as nat) + before.skip(i as int),
            decreases self.size - i,
        {
            let slot: usize = self.start + i;
            let ghost now = self@;
            self.storage.set(slot, 0u8);
            assert(self@ =~= now.update(i as int, 0u8));
            i = i + 1;
            assert(self@ =~= before.take(at as int) + zeros((i - at) as nat) + before.skip(
                i as int,
            ));
        }
        assert(self@ =~= before.take(at as int) + zeros((before.len() - at) as nat));
    }
}

/// A buffer of `pages` pages of `page_size` bytes, and its size.
pub fn page_aligned_buffer_for(page_size: usize, pages: usize) -> (r: Result<
    (PageAlignedBuffer, usize),
    LayoutError,
>)
    ensures
        r is Ok <==> storage_fits(page_size, pages),
        r matches Ok((b, n)) ==> {
            &&& b.wf()
            &&& b.spec_page_size() == page_size
            &&& b.spec_start() < page_size
            &&& pages > 0 ==> b.spec_address() as int % page_size as int == 0
            &&& b@ == zeros((page_size * pages) as nat)
            &&& b@.len() == n
            &&& n == page_size * pages
        },
{
    match PageAlignedBuffer::with_page_size(page_size, pages) {
        Err(e) => Err(e),
        Ok(buffer) => {
            let size: usize = buffer.size();
            Ok((buffer, size))
        },
    }
}

/// A buffer of `pages` pages, in the page size of the process, and its size. The
/// machine decides which page size that is, and `page_aligned_buffer_for` whether
/// there is a buffer then.
pub fn page_aligned_buffer(pages: usize) -> (r: Result<(PageAlignedBuffer, usize), LayoutError>)
    ensures
        r matches Ok((b, n)) ==> {
            &&& b.wf()
            &&& storage_fits(b.spec_page_size(), pages)
            &&& b.spec_start() < b.spec_page_size()
            &&& pages > 0 ==> b.spec_address() as int % b.spec_page_size() as int == 0
            &&& b@ == zeros((b.spec_page_size() * pages) as nat)
            &&& n == b.spec_page_size() * pages
        },
{
    page_aligned_buffer_for(page_size(), pages)
}

/// The least multiple of `unit` that is not below `n`.
pub open spec fn rounded_up(n: nat, unit: nat) -> int {
    if n as int % unit as int == 0 {
        n as int
    } else {
        n - n as int % unit as int + unit
    }
}

/// Rounding up gives the least multiple that is not below the number.
pub proof fn law_rounded_up(n: nat, unit: nat, other: nat)
    requires
        unit > 0,
    ensures
        rounded_up(n, unit) % unit as int == 0,
        rounded_up(n, unit) >= n,
        other >= n && other as int % unit as int == 0 ==> other >= rounded_up(n, unit),
{
    let u = unit as int;
    let q = n as int / u;
    vstd::arithmetic::div_mod::lemma_fundamental_div_mod(n as int, u);
    vstd::arithmetic::div_mod::lemma_mod_division_less_than_divisor(n as int, u);
    if n as int % u != 0 {
        assert(rounded_up(n, unit) == (q + 1) * u) by (nonlinear_arith)
            requires
                rounded_up(n, unit) == n - n as int % u + u,
                n == u * q + n as int % u,
        ;
        vstd::arithmetic::div_mod::lemma_mod_multiples_basic(q + 1, u);
        if other >= n && other as int % u == 0 {
            let k = other as int / u;
            vstd::arithmetic::div_mod::lemma_fundamental_div_mod(other as int, u);
            assert(k >= q + 1) by (nonlinear_arith)
                requires
                    u > 0,
                    u * k >= u * q + n as int % u,
                    0 < n as int % u,
            ;
            assert(k * u >= (q + 1) * u) by (nonlinear_arith)
                requires
                    k >= q + 1,
                    u > 0,
            ;
            assert(other == k * u) by (nonlinear_arith)
                requires
                    other == u * k,
            ;
        }
    }
}

/// How many pages the buffer of a guarded flash has.
pub const GUARDED_PAGES: usize = 1024;

/// A direct flash transfers at least this many bytes at once.
pub const DIRECT_MIN: usize = 1024;

/// The larger of two sizes.
pub open spec fn larger(a: usize, b: usize) -> usize {
    if a >= b {
        a
    } else {
        b
    }
}

/// How many bytes a direct flash transfers at once: the least multiple of the
/// page size and the sector size, whichever is larger, from `DIRECT_MIN` on.
pub fn transfer_size(page_size: usize, sector_size: usize) -> (n: usize)
    requires
        page_size > 0,
    ensures
        n == rounded_up(DIRECT_MIN as nat, larger(page_size, sector_size) as nat),
        n >= page_size,
        n >= 1024,
        page_size >= sector_size ==> n as int % page_size as int == 0 && n < 1024 + page_size,
        page_size < sector_size ==> n as int % sector_size as int == 0 && n < 1024 + sector_size,
{
    let alignment: usize = if page_size >= sector_size {
        page_size
    } else {
        sector_size
    };
    let over: usize = DIRECT_MIN % alignment;
    proof {
        law_rounded_up(DIRECT_MIN as nat, alignment as nat, 0);
        vstd::arithmetic::div_mod::lemma_mod_division_less_than_divisor(
            DIRECT_MIN as int,
            alignment as int,
        );
        let n = rounded_up(DIRECT_MIN as nat, alignment as nat);
        assert(n >= alignment) by {
            if n < alignment {
                vstd::arithmetic::div_mod::lemma_small_mod(n as nat, alignment as nat);
            }
        }
        if DIRECT_MIN < alignment {
            vstd::arithmetic::div_mod::lemma_small_mod(DIRECT_MIN as nat, alignment as nat);
        }
    }
    if over == 0 {
        DIRECT_MIN
    } else {
        DIRECT_MIN - over + alignment
    }
}

/// The buffer of a direct flash to a drive with sectors of `sector_size` bytes,
/// where pages have `page_size` bytes.
pub fn direct_buffer_for(page_size: usize, sector_size: usize) -> (r: Result<
    PageAlignedBuffer,
    LayoutError,
>)
    requires
        page_size > 0,
    ensures
        ({
            let n = rounded_up(DIRECT_MIN as nat, larger(page_size, sector_size) as nat);
            let pages = n / page_size as int;
            &&& r is Ok <==> storage_fits(page_size, pages as usize)
            &&& r matches Ok(b) ==> {
                &&& b.wf()
                &&& b.spec_page_size() == page_size
                &&& b.spec_start() < page_size
                &&& b.spec_address() as int % page_size as int == 0
                &&& b@ == zeros((page_size * pages) as nat)
                &&& b@.len() > 0
                &&& page_size >= sector_size ==> 1024 <= b@.len() < 1024 + page_size
                &&& sector_size > page_size && sector_size as int % page_size as int == 0 ==> {
                    &&& 1024 <= b@.len() < 1024 + sector_size
                    &&& b@.len() as int % sector_size as int == 0
                }
            }
        }),
{
    let n: usize = transfer_size(page_size, sector_size);
    let pages: usize = n / page_size;
    proof {
        vstd::arithmetic::div_mod::lemma_div_is_ordered(
            page_size as int,
            n as int,
            page_size as int,
        );
        vstd::arithmetic::div_mod::lemma_div_by_self(page_size as int);
        vstd::arithmetic::div_mod::lemma_fundamental_div_mod(n as int, page_size as int);
        if sector_size > page_size && sector_size as int % page_size as int == 0 {
            lemma_multiple_of_multiple(n as int, sector_size as int, page_size as int);
        }
        assert(page_size * pages > 0) by (nonlinear_arith)
            requires
                page_size > 0,
                pages > 0,
        ;
    }
    PageAlignedBuffer::with_page_size(page_size, pages)
}

/// The buffer of a direct flash consists of whole pages and of whole sectors, if
/// pages consist of sectors or sectors of pages.
pub proof fn law_direct_buffer_is_aligned(page: usize, sector: usize)
    requires
        page > 0,
        sector > 0,
        page as int % sector as int == 0 || sector as int % page as int == 0,
    ensures
        ({
            let n = rounded_up(DIRECT_MIN as nat, larger(page, sector) as nat);
            let size = page * (n / page as int);
            &&& size == n
            &&& size % page as int == 0
            &&& size % sector as int == 0
            &&& size >= DIRECT_MIN
        }),
{
    let unit = larger(page, sector);
    let n = rounded_up(DIRECT_MIN as nat, unit as nat);
    law_rounded_up(DIRECT_MIN as nat, unit as nat, 0);
    if page as int % sector as int == 0 && page < sector {
        vstd::arithmetic::div_mod::lemma_small_mod(page as nat, sector as nat);
    }
    if sector as int % page as int == 0 && sector < page {
        vstd::arithmetic::div_mod::lemma_small_mod(sector as nat, page as nat);
    }
    vstd::arithmetic::div_mod::lemma_mod_self_0(unit as int);
    lemma_multiple_of_multiple(n, unit as int, page as int);
    lemma_multiple_of_multiple(n, unit as int, sector as int);
    vstd::arithmetic::div_mod::lemma_fundamental_div_mod(n, page as int);
}

/// A multiple of a multiple is a multiple.
pub proof fn lemma_multiple_of_multiple(n: int, m: int, k: int)
    requires
        m > 0,
        k > 0,
        n % m == 0,
        m % k == 0,
    ensures
        n % k == 0,
{
    vstd::arithmetic::div_mod::lemma_fundamental_div_mod(n, m);
    vstd::arithmetic::div_mod::lemma_fundamental_div_mod(m, k);
    assert(n == (n / m * (m / k)) * k) by (nonlinear_arith)
        requires
            n == m * (n / m),
            m == k * (m / k),
    ;
    vstd::arithmetic::div_mod::lemma_mod_multiples_basic(n / m * (m / k), k);
}

/// The buffer of a direct flash to a drive with sectors of `sector_size` bytes,
/// in the page size of the process. The machine decides which one that is, and
/// `direct_buffer_for` whether there is a buffer then.
pub fn direct_buffer(sector_size: usize) -> (r: Result<PageAlignedBuffer, LayoutError>)
    ensures
        r matches Ok(b) ==> {
            let page = b.spec_page_size();
            let n = rounded_up(DIRECT_MIN as nat, larger(page, sector_size) as nat);
            let pages = n / page as int;
            &&& b.wf()
            &&& storage_fits(page, pages as usize)
            &&& b.spec_start() < page
            &&& b.spec_address() as int % page as int == 0
            &&& b@ == zeros((page * pages) as nat)
            &&& b@.len() > 0
        },
{
    let page: usize = page_size();
    if page == 0 {
        return Err(LayoutError);
    }
    direct_buffer_for(page, sector_size)
}

/// The buffer of a guarded flash, where pages have `page_size` bytes.
pub fn guarded_buffer_for(page_size: usize) -> (r: Result<PageAlignedBuffer, LayoutError>)
    ensures
        r is Ok <==> storage_fits(page_size, GUARDED_PAGES),
        r matches Ok(b) ==> {
            &&& b.wf()
            &&& b.spec_page_size() == page_size
            &&& b.spec_start() < page_size
            &&& b.spec_address() as int % page_size as int == 0
            &&& b@ == zeros((page_size * GUARDED_PAGES) as nat)
            &&& b@.len() == page_size * 1024
            &&& b@.len() > 0
        },
{
    let r = PageAlignedBuffer::with_page_size(page_size, GUARDED_PAGES);
    proof {
        if r is Ok {
            r->Ok_0.lemma_wf();
            assert(page_size * 1024 > 0);
        }
    }
    r
}

/// The buffer of a guarded flash, in the page size of the process. The machine
/// decides which one that is, and `guarded_buffer_for` whether there is a buffer then.
pub fn guarded_buffer() -> (r: Result<PageAlignedBuffer, LayoutError>)
    ensures
        r matches Ok(b) ==> {
            &&& b.wf()
            &&& storage_fits(b.spec_page_size(), GUARDED_PAGES)
            &&& b.spec_start() < b.spec_page_size()
            &&& b.spec_address() as int % b.spec_page_size() as int == 0
            &&& b@ == zeros((b.spec_page_size() * GUARDED_PAGES) as nat)
            &&& b@.len() == b.spec_page_size() * 1024
            &&& b@.len() > 0
        },
{
    guarded_buffer_for(page_size())
}

} // verus!
