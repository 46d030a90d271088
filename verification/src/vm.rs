//! Page-table entries of the 64-bit RISC-V Sv39 scheme and the mappings that a fresh
//! page table starts with.

use vstd::prelude::*;

verus! {

/// Bytes per page.
pub const PGSIZE: u64 = 4096;

/// One beyond the highest possible virtual address.
pub const MAXVA: u64 = 0x40_0000_0000;

/// The trampoline page sits at the highest address of every address space.
pub const TRAMPOLINE: u64 = 0x3f_ffff_f000;

/// The trap frame sits just below the trampoline in a user address space.
pub const TRAPFRAME: u64 = 0x3f_ffff_e000;

/// Test-finisher device of the virtual board.
pub const FINISHER: u64 = 0x10_0000;

/// Uart registers of the virtual board.
pub const UART0: u64 = 0x1000_0000;

/// Virtio disk interface of the virtual board.
pub const VIRTIO0: u64 = 0x1000_1000;

/// Platform-level interrupt controller of the virtual board.
pub const PLIC: u64 = 0x0c00_0000;

/// Size of the interrupt controller's register range.
pub const PLIC_SIZE: u64 = 0x40_0000;

/// Access flag: readable.
pub const ACCESS_R: u64 = 1;

/// Access flag: writable.
pub const ACCESS_W: u64 = 2;

/// Access flag: executable.
pub const ACCESS_X: u64 = 4;

/// Access flag: user-accessible.
pub const ACCESS_U: u64 = 8;

/// Entry flag: valid.
pub const PTE_V: u64 = 1;

/// Entry flag: readable.
pub const PTE_R: u64 = 2;

/// Entry flag: writable.
pub const PTE_W: u64 = 4;

/// Entry flag: executable.
pub const PTE_X: u64 = 8;

/// Entry flag: user-accessible.
pub const PTE_U: u64 = 16;

/// Every entry flag.
pub const PTE_ALL: u64 = 31;

/// The permissions that a mapping is asked for, independent of the machine.
#[derive(Clone, Copy, PartialEq, Eq, Structural, Debug)]
pub struct AccessFlags {
    pub bits: u64,
}

/// The flag bits of a page-table entry.
#[derive(Clone, Copy, PartialEq, Eq, Structural, Debug)]
pub struct PteFlagsImpl {
    pub bits: u64,
}

impl AccessFlags {
    /// Whether `self` and `other` have a flag in common.
    pub fn intersects(&self, other: u64) -> (r: bool)
        ensures
            r == (self.bits & other != 0),
    {
        self.bits & other != 0
    }
}

/// `flag` if `on`, else no flag.
pub open spec fn flag_if(on: bool, flag: u64) -> u64 {
    if on {
        flag
    } else {
        0
    }
}

impl PteFlagsImpl {
    /// No flag.
    pub fn empty() -> (r: Self)
        ensures
            r.bits == 0,
    {
        PteFlagsImpl { bits: 0 }
    }

    /// The flags among `bits`; bits that are no flag are dropped.
    pub fn from_bits_truncate(bits: u64) -> (r: Self)
        ensures
            r.bits == bits & PTE_ALL,
    {
        PteFlagsImpl { bits: bits & PTE_ALL }
    }

    /// The flags as bits.
    pub fn bits(&self) -> (r: u64)
        ensures
            r == self.bits,
    {
        self.bits
    }

    /// Whether `self` and `other` have a flag in common.
    pub fn intersects(&self, other: PteFlagsImpl) -> (r: bool)
        ensures
            r == (self.bits & other.bits != 0),
    {
        self.bits & other.bits != 0
    }

    /// The flags of `self` and those of `other`.
    pub fn union(&self, other: PteFlagsImpl) -> (r: Self)
        ensures
            r.bits == self.bits | other.bits,
    {
        PteFlagsImpl { bits: self.bits | other.bits }
    }

    /// The entry flags that grant what `f` asks for: each of readable,
    /// writable, executable and user-accessible is carried over, and nothing
    /// else is set.
    pub fn from_access_flags(f: AccessFlags) -> (r: Self)
        ensures
            r.bits == flag_if(f.bits & ACCESS_R != 0, PTE_R) | flag_if(f.bits & ACCESS_W != 0, PTE_W)
                | flag_if(f.bits & ACCESS_X != 0, PTE_X) | flag_if(f.bits & ACCESS_U != 0, PTE_U),
    {
        let mut ret = Self::empty();
        if f.intersects(ACCESS_R) {
            ret = ret.union(PteFlagsImpl { bits: PTE_R });
        }
        if f.intersects(ACCESS_W) {
            ret = ret.union(PteFlagsImpl { bits: PTE_W });
        }
        if f.intersects(ACCESS_X) {
            ret = ret.union(PteFlagsImpl { bits: PTE_X });
        }
        if f.intersects(ACCESS_U) {
            ret = ret.union(PteFlagsImpl { bits: PTE_U });
        }
        proof {
            let a = flag_if(f.bits & ACCESS_R != 0, PTE_R);
            let b = flag_if(f.bits & ACCESS_W != 0, PTE_W);
            let c = flag_if(f.bits & ACCESS_X != 0, PTE_X);
            let d = flag_if(f.bits & ACCESS_U != 0, PTE_U);
            assert(0u64 | a == a) by (bit_vector);
            assert(a | 0u64 == a) by (bit_vector);
            assert((a | b) | 0u64 == a | b) by (bit_vector);
            assert(((a | b) | c) | 0u64 == (a | b) | c) by (bit_vector);
        }
        ret
    }
}

/// The entry that refers to physical address `pa`, without flags.
pub open spec fn pa2pte(pa: u64) -> u64 {
    (pa >> 12) << 10
}

/// The physical address that entry `pte` refers to.
pub open spec fn pte2pa(pte: u64) -> u64 {
    (pte >> 10) << 12
}

/// One page-table entry. An entry that `is_table` must refer to a page that
/// holds a page table; the all-zero entry is invalid and so refers to nothing.
#[derive(Clone, Copy, PartialEq, Eq, Structural, Debug)]
pub struct PageTableEntryImpl {
    pub inner: u64,
}

impl PageTableEntryImpl {
    /// Whether the entry has one of the flag bits `flags`.
    pub open spec fn has_any(&self, flags: u64) -> bool {
        (self.inner & PTE_ALL) & flags != 0
    }

    /// The invalid, all-zero entry.
    pub fn new() -> (r: Self)
        ensures
            r.inner == 0,
    {
        PageTableEntryImpl { inner: 0 }
    }

    /// The entry's flags.
    pub fn get_flags(&self) -> (r: PteFlagsImpl)
        ensures
            r.bits == self.inner & PTE_ALL,
    {
        PteFlagsImpl::from_bits_truncate(self.inner)
    }

    /// Whether the entry has one of the flags `flag`.
    pub fn flag_intersects(&self, flag: PteFlagsImpl) -> (r: bool)
        ensures
            r == self.has_any(flag.bits),
    {
        self.get_flags().intersects(flag)
    }

    /// The physical address that the entry refers to.
    pub fn get_pa(&self) -> (r: u64)
        ensures
            r == pte2pa(self.inner),
    {
        (self.inner >> 10) << 12
    }

    /// Whether the entry is valid.
    pub fn is_valid(&self) -> (r: bool)
        ensures
            r == self.has_any(PTE_V),
    {
        self.flag_intersects(PteFlagsImpl { bits: PTE_V })
    }

    /// Whether the entry is valid or user-accessible.
    pub fn is_user(&self) -> (r: bool)
        ensures
            r == self.has_any(PTE_V | PTE_U),
    {
        self.flag_intersects(PteFlagsImpl { bits: PTE_V | PTE_U })
    }

    /// Whether the entry refers to a page-table page: it is valid and neither
    /// readable, writable nor executable.
    pub fn is_table(&self) -> (r: bool)
        ensures
            r == (self.has_any(PTE_V) && !self.has_any(PTE_R | PTE_W | PTE_X)),
    {
        self.is_valid() && !self.flag_intersects(PteFlagsImpl { bits: PTE_R | PTE_W | PTE_X })
    }

    /// Whether the entry refers to a data page: it is valid and readable,
    /// writable or executable.
    pub fn is_data(&self) -> (r: bool)
        ensures
            r == (self.has_any(PTE_V) && self.has_any(PTE_R | PTE_W | PTE_X)),
    {
        self.is_valid() && self.flag_intersects(PteFlagsImpl { bits: PTE_R | PTE_W | PTE_X })
    }

    /// Makes the entry refer to the page-table page at address `page`.
    pub fn set_table(&mut self, page: u64)
        ensures
            final(self).inner == pa2pte(page) | PTE_V,
    {
        self.inner = ((page >> 12) << 10) | PTE_V;
    }

    /// Makes the entry refer to address `pa` with permission `perm`, which
    /// includes at least one of readable, writable and executable, so that the
    /// entry is not taken for one that refers to a page-table page.
    pub fn set_entry(&mut self, pa: u64, perm: PteFlagsImpl)
        requires
            perm.bits & (PTE_R | PTE_W | PTE_X) != 0,
        ensures
            final(self).inner == pa2pte(pa) | (perm.bits | PTE_V),
    {
        self.inner = ((pa >> 12) << 10) | perm.union(PteFlagsImpl { bits: PTE_V }).bits();
    }

    /// Makes the entry inaccessible to user processes.
    pub fn clear_user(&mut self)
        ensures
            final(self).inner == old(self).inner & !PTE_U,
    {
        self.inner &= !PTE_U;
    }

    /// Invalidates the entry by making every bit 0.
    pub fn invalidate(&mut self)
        ensures
            final(self).inner == 0,
    {
        self.inner = 0;
    }
}

/// A request to map `size` bytes at virtual address `va` to physical address
/// `pa` with permission `perm`.
#[derive(Clone, Copy, PartialEq, Eq, Structural, Debug)]
pub struct Mapping {
    pub va: u64,
    pub size: u64,
    pub pa: u64,
    pub perm: u64,
}

/// The mappings that every page table of this machine starts with.
pub struct PageInitImpl {}

impl PageInitImpl {
    /// What a fresh user page table maps.
    pub open spec fn user_mappings(trampoline: u64, trap_frame: u64) -> Seq<Mapping> {
        seq![
            Mapping { va: TRAMPOLINE, size: PGSIZE, pa: trampoline, perm: ACCESS_R | ACCESS_X },
            Mapping { va: TRAPFRAME, size: PGSIZE, pa: trap_frame, perm: ACCESS_R | ACCESS_W },
        ]
    }

    /// What the kernel page table maps besides the kernel's own memory.
    pub open spec fn kernel_mappings(trampoline: u64) -> Seq<Mapping> {
        seq![
            Mapping { va: FINISHER, size: PGSIZE, pa: FINISHER, perm: ACCESS_R | ACCESS_W },
            Mapping { va: UART0, size: PGSIZE, pa: UART0, perm: ACCESS_R | ACCESS_W },
            Mapping { va: VIRTIO0, size: PGSIZE, pa: VIRTIO0, perm: ACCESS_R | ACCESS_W },
            Mapping { va: PLIC, size: PLIC_SIZE, pa: PLIC, perm: ACCESS_R | ACCESS_W },
            Mapping { va: TRAMPOLINE, size: PGSIZE, pa: trampoline, perm: ACCESS_R | ACCESS_X },
        ]
    }

    /// The mappings to insert into a fresh user page table, in order: the
    /// trampoline code at the highest user virtual address, readable and
    /// executable but not user-accessible, and just below it the trap frame,
    /// readable and writable.
    pub fn user_page_init(trampoline: u64, trap_frame: u64) -> (r: Vec<Mapping>)
        ensures
            r@ == Self::user_mappings(trampoline, trap_frame),
    {
        let mut r: Vec<Mapping> = Vec::new();
        r.push(Mapping { va: TRAMPOLINE, size: PGSIZE, pa: trampoline, perm: ACCESS_R | ACCESS_X });
        r.push(Mapping { va: TRAPFRAME, size: PGSIZE, pa: trap_frame, perm: ACCESS_R | ACCESS_W });
        assert(r@ =~= Self::user_mappings(trampoline, trap_frame));
        r
    }

    /// The device and trampoline mappings to insert into the kernel page
    /// table, in order: each device at its own address, readable and
    /// writable, and the trampoline at the highest virtual address, readable
    /// and executable.
    pub fn kernel_page_init(trampoline: u64) -> (r: Vec<Mapping>)
        ensures
            r@ == Self::kernel_mappings(trampoline),
    {
        let mut r: Vec<Mapping> = Vec::new();
        r.push(Mapping { va: FINISHER, size: PGSIZE, pa: FINISHER, perm: ACCESS_R | ACCESS_W });
        r.push(Mapping { va: UART0, size: PGSIZE, pa: UART0, perm: ACCESS_R | ACCESS_W });
        r.push(Mapping { va: VIRTIO0, size: PGSIZE, pa: VIRTIO0, perm: ACCESS_R | ACCESS_W });
        r.push(Mapping { va: PLIC, size: PLIC_SIZE, pa: PLIC, perm: ACCESS_R | ACCESS_W });
        r.push(Mapping { va: TRAMPOLINE, size: PGSIZE, pa: trampoline, perm: ACCESS_R | ACCESS_X });
        assert(r@ =~= Self::kernel_mappings(trampoline));
        r
    }
}

} // verus!
