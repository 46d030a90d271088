//! In-memory inodes and the table that caches them.

use crate::arena::{is_free, is_live, duped, taken, Arena, ArenaObject, SlotView};
use crate::array_arena::{is_lowest_free, ArrayArena, ArrayEntry, ArrayPtr};
use vstd::prelude::*;

verus! {

/// Number of direct block addresses in an inode.
pub const NDIRECT: usize = 12;

/// Maximum number of inodes cached in memory.
pub const NINODE: usize = 50;

/// Device number of the file system's root disk.
pub const ROOTDEV: u32 = 1;

/// Inode number of the root directory.
pub const ROOTINO: u32 = 1;

/// What an in-memory inode is.
#[derive(Clone, Copy, PartialEq, Eq, Structural, Debug)]
pub enum InodeType {
    Empty,
    Dir,
    File,
    Device { major: u16, minor: u16 },
}

/// What an on-disk inode is.
#[derive(Clone, Copy, PartialEq, Eq, Structural, Debug)]
pub enum DInodeType {
    Empty,
    Dir,
    File,
    Device,
}

/// The part of an inode that mirrors the disk.
#[derive(Clone, Copy)]
pub struct InodeInner {
    /// inode has been read from disk?
    pub valid: bool,
    /// copy of disk inode
    pub typ: InodeType,
    pub nlink: i16,
    pub size: u32,
    pub addr_direct: [u32; NDIRECT],
    pub addr_indirect: u32,
}

/// On-disk inode structure.
#[derive(Clone, Copy)]
pub struct Dinode {
    /// File type
    pub typ: DInodeType,
    /// Major device number (device files only)
    pub major: u16,
    /// Minor device number (device files only)
    pub minor: u16,
    /// Number of links to inode in file system
    pub nlink: i16,
    /// Size of file (bytes)
    pub size: u32,
    /// Direct data block addresses
    pub addr_direct: [u32; NDIRECT],
    /// Indirect data block address
    pub addr_indirect: u32,
}

impl InodeType {
    /// The type that the disk stores for this type.
    pub open spec fn on_disk(self) -> DInodeType {
        match self {
            InodeType::Empty => DInodeType::Empty,
            InodeType::Dir => DInodeType::Dir,
            InodeType::File => DInodeType::File,
            InodeType::Device { .. } => DInodeType::Device,
        }
    }

    /// The major device number that the disk stores for this type: that of
    /// a device, zero for anything else.
    pub open spec fn major(self) -> u16 {
        match self {
            InodeType::Device { major, .. } => major,
            _ => 0,
        }
    }

    /// The minor device number that the disk stores for this type: that of
    /// a device, zero for anything else.
    pub open spec fn minor(self) -> u16 {
        match self {
            InodeType::Device { minor, .. } => minor,
            _ => 0,
        }
    }
}

impl InodeInner {
    /// The on-disk inode that stores this in-memory copy.
    pub open spec fn on_disk(self) -> Dinode {
        Dinode {
            typ: self.typ.on_disk(),
            major: self.typ.major(),
            minor: self.typ.minor(),
            nlink: self.nlink,
            size: self.size,
            addr_direct: self.addr_direct,
            addr_indirect: self.addr_indirect,
        }
    }

    /// The on-disk inode to write so that the disk holds this in-memory
    /// copy.
    pub fn to_dinode(&self) -> (r: Dinode)
        ensures
            r == self.on_disk(),
    {
        let (typ, major, minor) = match self.typ {
            InodeType::Device { major, minor } => (DInodeType::Device, major, minor),
            InodeType::Empty => (DInodeType::Empty, 0, 0),
            InodeType::Dir => (DInodeType::Dir, 0, 0),
            InodeType::File => (DInodeType::File, 0, 0),
        };
        Dinode {
            typ,
            major,
            minor,
            nlink: self.nlink,
            size: self.size,
            addr_direct: self.addr_direct,
            addr_indirect: self.addr_indirect,
        }
    }
}

impl Dinode {
    /// Whether no file uses this on-disk inode.
    pub fn is_free(&self) -> (r: bool)
        ensures
            r == (self.typ == DInodeType::Empty),
    {
        self.typ == DInodeType::Empty
    }

    /// A freshly allocated on-disk inode of type `typ`: everything is zero
    /// but the type and, for a device, its numbers.
    pub fn allocated(typ: InodeType) -> (r: Self)
        ensures
            r.typ == typ.on_disk(),
            r.major == typ.major(),
            r.minor == typ.minor(),
            r.nlink == 0,
            r.size == 0,
            r.addr_direct@ == Seq::new(NDIRECT as nat, |i: int| 0u32),
            r.addr_indirect == 0,
    {
        let (t, major, minor) = match typ {
            InodeType::Empty => (DInodeType::Empty, 0, 0),
            InodeType::Dir => (DInodeType::Dir, 0, 0),
            InodeType::File => (DInodeType::File, 0, 0),
            InodeType::Device { major, minor } => (DInodeType::Device, major, minor),
        };
        let r = Dinode {
            typ: t,
            major,
            minor,
            nlink: 0,
            size: 0,
            addr_direct: [0;NDIRECT],
            addr_indirect: 0,
        };
        assert(r.addr_direct@ =~= Seq::new(NDIRECT as nat, |i: int| 0u32));
        r
    }
}

/// An in-memory inode.
#[derive(Clone, Copy)]
pub struct Inode {
    /// Device number
    pub dev: u32,
    /// Inode number
    pub inum: u32,
    pub inner: InodeInner,
}

impl Inode {
    /// The inode stands for nothing: device and number zero, nothing read
    /// from disk, no type, no link, no content.
    pub open spec fn is_blank(self) -> bool {
        &&& self.dev == 0
        &&& self.inum == 0
        &&& !self.inner.valid
        &&& self.inner.typ == InodeType::Empty
        &&& self.inner.nlink == 0
        &&& self.inner.size == 0
        &&& self.inner.addr_direct@ == Seq::new(NDIRECT as nat, |i: int| 0u32)
        &&& self.inner.addr_indirect == 0
    }

    /// An inode that stands for nothing yet.
    pub fn new() -> (r: Self)
        ensures
            r.is_blank(),
    {
        let r = Self {
            dev: 0,
            inum: 0,
            inner: InodeInner {
                valid: false,
                typ: InodeType::Empty,
                nlink: 0,
                size: 0,
                addr_direct: [0;NDIRECT],
                addr_indirect: 0,
            },
        };
        assert(r.inner.addr_direct@ =~= Seq::new(NDIRECT as nat, |i: int| 0u32));
        r
    }

    /// The inode as a table slot holds it once it stands for inode `inum` of
    /// device `dev`: not yet read from disk, the rest as it was.
    pub open spec fn assigned(self, dev: u32, inum: u32) -> Self {
        Inode { dev, inum, inner: InodeInner { valid: false, ..self.inner } }
    }

    /// Whether this inode stands for inode `inum` of device `dev`.
    pub open spec fn is_for(self, dev: u32, inum: u32) -> bool {
        self.dev == dev && self.inum == inum
    }
}

impl ArenaObject for Inode {
    /// An inode that was read from disk and has no link left is discarded:
    /// it has no type, no content, and is no longer valid. Any other inode
    /// stays as it is.
    open spec fn finalized(self) -> Self {
        if self.inner.valid && self.inner.nlink == 0 {
            Inode {
                inner: InodeInner { valid: false, typ: InodeType::Empty, size: 0, ..self.inner },
                ..self
            }
        } else {
            self
        }
    }

    fn finalize(&mut self) {
        if self.inner.valid && self.inner.nlink == 0 {
            self.inner.typ = InodeType::Empty;
            self.inner.size = 0;
            self.inner.valid = false;
        }
    }
}

/// The table of in-memory inodes.
pub struct Itable {
    pub arena: ArrayArena<Inode, NINODE>,
}

impl Itable {
    /// The slots of the table.
    pub open spec fn view(&self) -> Seq<SlotView<Inode>> {
        self.arena@
    }

    /// No handle count is at the machine's limit.
    pub open spec fn counts_fit(&self) -> bool {
        forall|i: int| #![trigger self@[i]] is_live(self@, i) ==> self@[i].refcnt < usize::MAX
    }

    /// No two occupied slots stand for the same inode.
    pub open spec fn distinct(&self) -> bool {
        forall|i: int, j: int|
            #![trigger self@[i], self@[j]]
            is_live(self@, i) && is_live(self@, j) && i != j ==> !self@[i].data.is_for(
                self@[j].data.dev,
                self@[j].data.inum,
            )
    }

    /// Some occupied slot stands for inode `inum` of device `dev`.
    pub open spec fn caches(&self, dev: u32, inum: u32) -> bool {
        exists|i: int| #![trigger self@[i]] is_live(self@, i) && self@[i].data.is_for(dev, inum)
    }

    /// Some slot is free.
    pub open spec fn has_room(&self) -> bool {
        exists|i: int| #![trigger self@[i]] is_free(self@, i)
    }

    /// A table of `NINODE` free slots.
    pub fn new_itable() -> (r: Self)
        ensures
            r@.len() == NINODE,
            forall|i: int| #![trigger r@[i]] 0 <= i < NINODE ==> is_free(r@, i) && r@[i].data.is_blank(),
    {
        let entries = [ArrayEntry::new(Inode::new());NINODE];
        assert(forall|i: int|
            0 <= i < NINODE ==> (#[trigger] entries[i])@.refcnt == 0 && entries[i]@.data.is_blank());
        let arena = ArrayArena::new(entries);
        Itable { arena }
    }

    /// Whether `get_inode` can serve inode `inum` of device `dev`: no handle
    /// count is at the machine's limit, and the inode is cached or a slot is
    /// free.
    pub fn can_get(&self, dev: u32, inum: u32) -> (r: bool)
        ensures
            r == (self.counts_fit() && (self.caches(dev, inum) || self.has_room())),
    {
        proof {
            self.arena.lemma_view_len();
        }
        if !self.arena.counts_fit() {
            return false;
        }
        let mut i: usize = 0;
        while i < NINODE
            invariant
                i <= NINODE,
                self@.len() == NINODE,
                self.counts_fit(),
                forall|k: int|
                    #![trigger self@[k]]
                    0 <= k < i ==> is_live(self@, k) && !self@[k].data.is_for(dev, inum),
            decreases NINODE - i,
        {
            if self.arena.refcnt_at(i) == 0 {
                assert(is_free(self@, i as int));
                return true;
            }
            let ip = self.arena.data_at(i);
            if ip.dev == dev && ip.inum == inum {
                assert(is_live(self@, i as int) && self@[i as int].data.is_for(dev, inum));
                return true;
            }
            assert(is_live(self@, i as int) && !self@[i as int].data.is_for(dev, inum));
            i += 1;
        }
        proof {
            assert forall|k: int| !(is_live(self@, k) && self@[k].data.is_for(dev, inum)) by {
                if is_live(self@, k) {
                    assert(0 <= k < NINODE);
                }
            }
            assert forall|k: int| !is_free(self@, k) by {
                if is_free(self@, k) {
                    assert(is_live(self@, k));
                }
            }
        }
        false
    }

    /// Finds the in-memory inode for inode `inum` of device `dev`, or makes a
    /// free slot stand for it, and returns a handle to it. The inode is not
    /// read from disk. The caller sees to it that the inode is cached or a
    /// slot is free. A table in which no two occupied slots stand for the
    /// same inode stays so.
    pub fn get_inode(&mut self, dev: u32, inum: u32) -> (r: ArrayPtr<Inode>)
        requires
            old(self).counts_fit(),
            old(self).caches(dev, inum) || old(self).has_room(),
        ensures
            old(self).distinct() ==> final(self).distinct(),
            0 <= r.slot() < NINODE,
            old(self).caches(dev, inum) ==> {
                &&& is_live(old(self)@, r.slot())
                &&& old(self)@[r.slot()].data.is_for(dev, inum)
                &&& forall|j: int|
                    0 <= j < r.slot() && is_live(old(self)@, j) ==> !(#[trigger] old(self)@[j]).data.is_for(
                        dev,
                        inum,
                    )
                &&& final(self)@ == duped(old(self)@, r.slot())
            },
            !old(self).caches(dev, inum) ==> {
                &&& is_lowest_free(old(self)@, r.slot())
                &&& final(self)@ == taken(
                    old(self)@,
                    r.slot(),
                    old(self)@[r.slot()].data.assigned(dev, inum),
                )
            },
    {
        let find = |inode: &Inode| -> (b: bool)
            ensures
                b == inode.is_for(dev, inum),
            { inode.dev == dev && inode.inum == inum };
        let init = |inode: &mut Inode|
            ensures
                *final(inode) == old(inode).assigned(dev, inum),
            {
                inode.dev = dev;
                inode.inum = inum;
                inode.inner.valid = false;
            };
        proof {
            self.arena.lemma_view_len();
        }
        let r = self.arena.find_or_alloc_handle(find, init);
        match r {
            Some(h) => {
                proof {
                    let s = h.slot();
                    let pre = old(self)@;
                    let post = self@;
                    if old(self).distinct() {
                        assert forall|i: int, j: int|
                            is_live(post, i) && is_live(post, j) && i != j implies !post[i].data.is_for(
                            post[j].data.dev,
                            post[j].data.inum,
                        ) by {
                            if i != s {
                                assert(is_live(pre, i));
                            }
                            if j != s {
                                assert(is_live(pre, j));
                            }
                            if is_live(pre, s) {
                                assert(is_live(pre, i) && is_live(pre, j));
                            }
                        }
                    }
                }
                h
            },
            None => {
                proof {
                    if old(self).caches(dev, inum) {
                        let i = choose|i: int| is_live(old(self)@, i) && old(self)@[i].data.is_for(dev, inum);
                        assert(is_live(old(self)@, i));
                    } else {
                        let i = choose|i: int| is_free(old(self)@, i);
                        assert(!is_live(old(self)@, i));
                    }
                }
                vstd::pervasive::unreached()
            },
        }
    }

    /// A handle to the root directory's inode.
    pub fn root(&mut self) -> (r: ArrayPtr<Inode>)
        requires
            old(self).counts_fit(),
            old(self).caches(ROOTDEV, ROOTINO) || old(self).has_room(),
        ensures
            0 <= r.slot() < NINODE,
            is_live(final(self)@, r.slot()),
            final(self)@[r.slot()].data.is_for(ROOTDEV, ROOTINO),
            old(self).caches(ROOTDEV, ROOTINO) ==> final(self)@ == duped(old(self)@, r.slot()),
            !old(self).caches(ROOTDEV, ROOTINO) ==> is_free(old(self)@, r.slot()) && final(self)@
                == taken(old(self)@, r.slot(), old(self)@[r.slot()].data.assigned(ROOTDEV, ROOTINO)),
    {
        self.get_inode(ROOTDEV, ROOTINO)
    }
}

} // verus!
