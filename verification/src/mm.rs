//! Address spaces as the scheduler sees them: which virtual pages a task has
//! mapped, and with which permissions.
//!
//! Page tables and physical frames belong to the virtual-memory subsystem.
//! What is kept here is the mapping itself, which is all that the mapping
//! calls decide on.

use crate::config::PAGE_SIZE;
use std::collections::HashMap;
use vstd::prelude::*;

verus! {

broadcast use vstd::std_specs::hash::group_hash_axioms;

/// Permission bit: the page may be read.
pub const PERM_R: u8 = 2;

/// Permission bit: the page may be written.
pub const PERM_W: u8 = 4;

/// Permission bit: instructions may be fetched from the page.
pub const PERM_X: u8 = 8;

/// Permission bit: the page is accessible in user mode.
pub const PERM_U: u8 = 16;

/// A virtual address.
#[derive(Clone, Copy, Debug, PartialEq, Eq, Structural)]
pub struct VirtAddr(pub usize);

/// A virtual page number.
#[derive(Clone, Copy, Debug, PartialEq, Eq, Structural)]
pub struct VirtPageNum(pub usize);

/// A physical address.
#[derive(Clone, Copy, Debug, PartialEq, Eq, Structural)]
pub struct PhysAddr(pub usize);

/// A physical page number.
#[derive(Clone, Copy, Debug, PartialEq, Eq, Structural)]
pub struct PhysPageNum(pub usize);

/// Number of the page that holds address `addr`.
pub open spec fn page_floor(addr: int) -> int {
    addr / (PAGE_SIZE as int)
}

/// Number of the first page that starts at or after address `addr`.
pub open spec fn page_ceil(addr: int) -> int {
    (addr + PAGE_SIZE - 1) / (PAGE_SIZE as int)
}

/// Page `vpn` holds some byte of the addresses from `start` up to `end`.
pub open spec fn in_pages(vpn: int, start: int, end: int) -> bool {
    page_floor(start) <= vpn < page_ceil(end)
}

impl VirtAddr {
    /// The page that holds this address.
    pub fn floor(&self) -> (vpn: VirtPageNum)
        ensures
            vpn.0 == page_floor(self.0 as int),
    {
        VirtPageNum(self.0 / PAGE_SIZE)
    }

    /// The first page that starts at or after this address.
    pub fn ceil(&self) -> (vpn: VirtPageNum)
        ensures
            vpn.0 == page_ceil(self.0 as int),
    {
        if self.0 % PAGE_SIZE == 0 {
            VirtPageNum(self.0 / PAGE_SIZE)
        } else {
            VirtPageNum(self.0 / PAGE_SIZE + 1)
        }
    }

    /// Distance of this address from the start of its page.
    pub fn page_offset(&self) -> (offset: usize)
        ensures
            offset == self.0 % PAGE_SIZE,
    {
        self.0 % PAGE_SIZE
    }

    /// Whether this address is the start of a page.
    pub fn aligned(&self) -> (r: bool)
        ensures
            r == (self.0 % PAGE_SIZE == 0),
    {
        self.page_offset() == 0
    }
}

/// A set of permission bits for a mapped page.
#[derive(Clone, Copy, Debug, PartialEq, Eq, Structural)]
pub struct MapPermission {
    pub bits: u8,
}

impl MapPermission {
    /// The permission with exactly the bits of `bits`, if all of them are
    /// permission bits.
    pub fn from_bits(bits: u8) -> (r: Option<MapPermission>)
        ensures
            r == if bits % 2 == 0 && bits < 32 {
                Some(MapPermission { bits })
            } else {
                None::<MapPermission>
            },
    {
        if bits % 2 == 0 && bits < 32 {
            Some(MapPermission { bits })
        } else {
            None
        }
    }
}

/// What a translation yields for a mapped page.
#[derive(Clone, Copy, Debug, PartialEq, Eq, Structural)]
pub struct PageTableEntry {
    pub valid: bool,
    pub permission: MapPermission,
}

impl PageTableEntry {
    /// Whether the entry stands for a mapping.
    pub fn is_valid(&self) -> (r: bool)
        ensures
            r == self.valid,
    {
        self.valid
    }
}

/// Permission bits that a mapping request with access bits `port` asks for:
/// the three access bits moved up by one place, and the user bit.
pub open spec fn port_permission(port: int) -> int {
    2 * port + PERM_U
}

/// The address space of a task.
pub struct MemorySet {
    /// Token by which the hardware finds this address space.
    pub token: usize,
    /// Permission bits of each mapped page, by page number.
    pub pages: HashMap<usize, u8>,
    /// Lowest address of the heap.
    pub heap_bottom: usize,
    /// Current end of the heap.
    pub program_brk: usize,
}

/// Mathematical form of a [`MemorySet`].
pub ghost struct MemoryView {
    pub token: usize,
    pub pages: Map<usize, u8>,
    pub heap_bottom: usize,
    pub program_brk: usize,
}

impl View for MemorySet {
    type V = MemoryView;

    open spec fn view(&self) -> MemoryView {
        MemoryView {
            token: self.token,
            pages: self.pages@,
            heap_bottom: self.heap_bottom,
            program_brk: self.program_brk,
        }
    }
}

impl MemoryView {
    /// The same address space with the pages of `start..end` mapped with
    /// permission bits `bits`.
    pub open spec fn map_range(self, start: int, end: int, bits: u8) -> MemoryView {
        MemoryView {
            pages: Map::new(
                |vpn: usize| self.pages.contains_key(vpn) || in_pages(vpn as int, start, end),
                |vpn: usize|
                    if in_pages(vpn as int, start, end) {
                        bits
                    } else {
                        self.pages[vpn]
                    },
            ),
            ..self
        }
    }

    /// The same address space without the pages of `start..end`.
    pub open spec fn unmap_range(self, start: int, end: int) -> MemoryView {
        MemoryView {
            pages: Map::new(
                |vpn: usize| self.pages.contains_key(vpn) && !in_pages(vpn as int, start, end),
                |vpn: usize| self.pages[vpn],
            ),
            ..self
        }
    }

    /// No page of `start..end` is mapped.
    pub open spec fn none_mapped(self, start: int, end: int) -> bool {
        forall|vpn: usize| in_pages(vpn as int, start, end) ==> !self.pages.contains_key(vpn)
    }

    /// Every page of `start..end` is mapped.
    pub open spec fn all_mapped(self, start: int, end: int) -> bool {
        forall|vpn: usize| in_pages(vpn as int, start, end) ==> self.pages.contains_key(vpn)
    }

    /// A request to map `len` bytes at `start` with access bits `port` is granted.
    pub open spec fn can_mmap(self, start: int, len: int, port: int) -> bool {
        &&& start % (PAGE_SIZE as int) == 0
        &&& 1 <= port <= 7
        &&& self.none_mapped(start, start + len)
    }

    /// A request to unmap `len` bytes at `start` is granted.
    pub open spec fn can_munmap(self, start: int, len: int) -> bool {
        &&& start % (PAGE_SIZE as int) == 0
        &&& self.all_mapped(start, start + len)
    }

    /// The address space after a request to map `len` bytes at `start`.
    pub open spec fn mmap(self, start: int, len: int, port: int) -> MemoryView {
        if self.can_mmap(start, len, port) {
            self.map_range(start, start + len, port_permission(port) as u8)
        } else {
            self
        }
    }

    /// The address space after a request to unmap `len` bytes at `start`.
    pub open spec fn munmap(self, start: int, len: int) -> MemoryView {
        if self.can_munmap(start, len) {
            self.unmap_range(start, start + len)
        } else {
            self
        }
    }

    /// The end of the heap after moving it by `size` bytes, if that is at or
    /// above the heap's lowest address and is an address at all.
    pub open spec fn moved_brk(self, size: int) -> Option<usize> {
        let target = self.program_brk + size;
        if self.heap_bottom <= target <= usize::MAX {
            Some(target as usize)
        } else {
            None
        }
    }

    /// The address space after a request to move the end of the heap.
    pub open spec fn change_program_brk(self, size: int) -> MemoryView {
        match self.moved_brk(size) {
            Some(brk) => MemoryView { program_brk: brk, ..self },
            None => self,
        }
    }
}

impl MemorySet {
    /// An address space with nothing mapped and an empty heap at address 0.
    pub fn new_bare(token: usize) -> (ms: MemorySet)
        ensures
            ms@ == (MemoryView { token, pages: Map::empty(), heap_bottom: 0, program_brk: 0 }),
    {
        MemorySet { token, pages: HashMap::new(), heap_bottom: 0, program_brk: 0 }
    }

    /// The token by which the hardware finds this address space.
    pub fn token(&self) -> (t: usize)
        ensures
            t == self@.token,
    {
        self.token
    }

    /// The entry for page `vpn`, if the page is mapped.
    pub fn translate(&self, vpn: VirtPageNum) -> (r: Option<PageTableEntry>)
        ensures
            r == if self@.pages.contains_key(vpn.0) {
                Some(
                    PageTableEntry {
                        valid: true,
                        permission: MapPermission { bits: self@.pages[vpn.0] },
                    },
                )
            } else {
                None::<PageTableEntry>
            },
    {
        match self.pages.get(&vpn.0) {
            Some(bits) => Some(
                PageTableEntry { valid: true, permission: MapPermission { bits: *bits } },
            ),
            None => None,
        }
    }

    /// Maps every page of `start_va..end_va` with `permission`.
    pub fn insert_framed_area(
        &mut self,
        start_va: VirtAddr,
        end_va: VirtAddr,
        permission: MapPermission,
    )
        ensures
            final(self)@ == old(self)@.map_range(
                start_va.0 as int,
                end_va.0 as int,
                permission.bits,
            ),
    {
        let first = start_va.floor().0;
        let end = end_va.ceil().0;
        let mut vpn = first;
        while vpn < end
            invariant
                first <= vpn,
                vpn <= end || vpn == first,
                first == page_floor(start_va.0 as int),
                end == page_ceil(end_va.0 as int),
                self.token == old(self).token,
                self.heap_bottom == old(self).heap_bottom,
                self.program_brk == old(self).program_brk,
                forall|v: usize|
                    self.pages@.contains_key(v) <==> (old(self).pages@.contains_key(v) || first
                        <= v < vpn),
                forall|v: usize|
                    self.pages@.contains_key(v) ==> self.pages@[v] == if first <= v < vpn {
                        permission.bits
                    } else {
                        old(self).pages@[v]
                    },
            decreases end - vpn,
        {
            self.pages.insert(vpn, permission.bits);
            vpn += 1;
        }
        assert(self@.pages =~= old(self)@.map_range(
            start_va.0 as int,
            end_va.0 as int,
            permission.bits,
        ).pages);
    }

    /// Unmaps every page of `start_va..end_va`.
    pub fn unmap(&mut self, start_va: VirtAddr, end_va: VirtAddr)
        ensures
            final(self)@ == old(self)@.unmap_range(start_va.0 as int, end_va.0 as int),
    {
        let first = start_va.floor().0;
        let end = end_va.ceil().0;
        let mut vpn = first;
        while vpn < end
            invariant
                first <= vpn,
                vpn <= end || vpn == first,
                first == page_floor(start_va.0 as int),
                end == page_ceil(end_va.0 as int),
                self.token == old(self).token,
                self.heap_bottom == old(self).heap_bottom,
                self.program_brk == old(self).program_brk,
                forall|v: usize|
                    self.pages@.contains_key(v) <==> (old(self).pages@.contains_key(v) && !(first
                        <= v < vpn)),
                forall|v: usize|
                    self.pages@.contains_key(v) ==> self.pages@[v] == old(self).pages@[v],
            decreases end - vpn,
        {
            self.pages.remove(&vpn);
            vpn += 1;
        }
        assert(self@.pages =~= old(self)@.unmap_range(start_va.0 as int, end_va.0 as int).pages);
    }

    /// Maps `len` bytes at `start` for user access with the access bits of
    /// `port` (read, write, execute from the lowest bit up).
    ///
    /// Returns 0 when the request is granted. Returns -1, and changes
    /// nothing, when `start` is not the start of a page, when `port` is not
    /// between 1 and 7, or when a page of the region is already mapped.
    pub fn mmap(&mut self, start: usize, len: usize, port: usize) -> (r: isize)
        requires
            start + len <= usize::MAX,
        ensures
            r == if old(self)@.can_mmap(start as int, len as int, port as int) {
                0isize
            } else {
                -1isize
            },
            final(self)@ == old(self)@.mmap(start as int, len as int, port as int),
    {
        if start % PAGE_SIZE != 0 {
            return -1;
        }
        if port > 7 || port == 0 {
            return -1;
        }
        let first = VirtAddr(start).floor().0;
        let end = VirtAddr(start + len).ceil().0;
        let mut vpn = first;
        while vpn < end
            invariant
                first <= vpn,
                first == page_floor(start as int),
                end == page_ceil(start + len),
                *self == *old(self),
                forall|v: usize| first <= v < vpn ==> !self@.pages.contains_key(v),
            decreases end - vpn,
        {
            match self.translate(VirtPageNum(vpn)) {
                Some(entry) => {
                    if entry.is_valid() {
                        assert(in_pages(vpn as int, start as int, start + len));
                        return -1;
                    }
                },
                None => {},
            }
            vpn += 1;
        }
        let low = port as u8;
        assert(low <= 7 ==> ((low << 1u8) | 16u8) == 2 * low + 16) by (bit_vector);
        assert(low <= 7 ==> (low << 1u8) % 2 == 0 && (low << 1u8) < 32) by (bit_vector);
        let access = MapPermission::from_bits(low << 1).unwrap();
        let permission = MapPermission { bits: access.bits | PERM_U };
        self.insert_framed_area(VirtAddr(start), VirtAddr(start + len), permission);
        0
    }

    /// Unmaps `len` bytes at `start`.
    ///
    /// Returns 0 when the request is granted. Returns -1, and changes
    /// nothing, when `start` is not the start of a page or when a page of the
    /// region is not mapped.
    pub fn munmap(&mut self, start: usize, len: usize) -> (r: isize)
        requires
            start + len <= usize::MAX,
        ensures
            r == if old(self)@.can_munmap(start as int, len as int) {
                0isize
            } else {
                -1isize
            },
            final(self)@ == old(self)@.munmap(start as int, len as int),
    {
        if start % PAGE_SIZE != 0 {
            return -1;
        }
        let first = VirtAddr(start).floor().0;
        let end = VirtAddr(start + len).ceil().0;
        let mut vpn = first;
        while vpn < end
            invariant
                first <= vpn,
                first == page_floor(start as int),
                end == page_ceil(start + len),
                *self == *old(self),
                forall|v: usize| first <= v < vpn ==> self@.pages.contains_key(v),
            decreases end - vpn,
        {
            match self.translate(VirtPageNum(vpn)) {
                Some(entry) => {
                    if !entry.is_valid() {
                        return -1;
                    }
                },
                None => {
                    assert(in_pages(vpn as int, start as int, start + len));
                    return -1;
                },
            }
            vpn += 1;
        }
        self.unmap(VirtAddr(start), VirtAddr(start + len));
        0
    }

    /// Moves the end of the heap by `size` bytes.
    ///
    /// Returns the new end of the heap, or nothing, with no change, when the
    /// new end would lie below the heap's lowest address or beyond the
    /// largest address.
    pub fn change_program_brk(&mut self, size: i32) -> (r: Option<usize>)
        ensures
            r == old(self)@.moved_brk(size as int),
            final(self)@ == old(self)@.change_program_brk(size as int),
    {
        let target: i128 = self.program_brk as i128 + size as i128;
        if target < self.heap_bottom as i128 || target > usize::MAX as i128 {
            return None;
        }
        self.program_brk = target as usize;
        Some(self.program_brk)
    }
}

/// The physical address of `virt_addr`, given the physical page that its
/// virtual page translates to, or nothing where the page does not translate.
pub fn v2p(virt_addr: VirtAddr, ppn: Option<PhysPageNum>) -> (r: Option<PhysAddr>)
    requires
        ppn matches Some(p) ==> p.0 * PAGE_SIZE + PAGE_SIZE <= usize::MAX,
    ensures
        r == match ppn {
            Some(p) => Some(PhysAddr((p.0 * PAGE_SIZE + virt_addr.0 % PAGE_SIZE) as usize)),
            None => None::<PhysAddr>,
        },
{
    let offset = virt_addr.page_offset();
    match ppn {
        Some(p) => Some(PhysAddr(p.0 * PAGE_SIZE + offset)),
        None => None,
    }
}

} // verus!
