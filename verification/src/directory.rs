//! Directories: files whose content is a sequence of fixed-size entries, each
//! an inode number followed by a name.

use crate::inode::{Dinode, InodeInner, InodeType};
use crate::path::{after_first_elem, first_elem, has_elem, skipelem};
use vstd::prelude::*;

verus! {

/// Maximum length of a name in a directory entry.
pub const DIRSIZ: usize = 14;

/// Size of a directory entry in bytes.
pub const DIRENT_SIZE: usize = 16;

/// The index of the first NUL in `raw` at or after `k`, or the length of
/// `raw` if there is none.
pub open spec fn nul_from(raw: Seq<u8>, k: int) -> int
    decreases raw.len() - k,
{
    if k < 0 || k >= raw.len() {
        raw.len() as int
    } else if raw[k] == 0 {
        k
    } else {
        nul_from(raw, k + 1)
    }
}

/// The name stored in a name field: the bytes before its first NUL.
pub open spec fn stored_name(raw: Seq<u8>) -> Seq<u8> {
    raw.take(nul_from(raw, 0))
}

/// A name field after `name` has been written into it: the name, then a NUL
/// if the name is shorter than the field, then what the field held before.
pub open spec fn renamed(raw: Seq<u8>, name: Seq<u8>) -> Seq<u8> {
    if name.len() >= raw.len() {
        name
    } else {
        name.push(0u8) + raw.skip(name.len() as int + 1)
    }
}

/// The inode number of the entry at byte offset `off` of `data`.
pub open spec fn entry_inum(data: Seq<u8>, off: int) -> int {
    data[off] + 256 * data[off + 1]
}

/// The name field of the entry at byte offset `off` of `data`.
pub open spec fn entry_raw_name(data: Seq<u8>, off: int) -> Seq<u8> {
    data.subrange(off + 2, off + DIRENT_SIZE as int)
}

/// The entry at byte offset `off` of `data` is in use and carries `name`.
pub open spec fn names_at(data: Seq<u8>, off: int, name: Seq<u8>) -> bool {
    entry_inum(data, off) != 0 && stored_name(entry_raw_name(data, off)) == name
}

/// The bytes of an entry with inode number `inum` and name field `raw`.
pub open spec fn entry_bytes(inum: u16, raw: Seq<u8>) -> Seq<u8> {
    seq![(inum % 256) as u8, (inum / 256) as u8] + raw
}

/// `data` with `bytes` written at offset `off`, which is inside `data` or at
/// its end.
pub open spec fn written(data: Seq<u8>, off: int, bytes: Seq<u8>) -> Seq<u8> {
    if off + bytes.len() <= data.len() {
        data.take(off) + bytes + data.skip(off + bytes.len() as int)
    } else {
        data.take(off) + bytes
    }
}

/// Whether two byte strings are equal.
pub fn bytes_eq(a: &[u8], b: &[u8]) -> (r: bool)
    ensures
        r == (a@ == b@),
{
    if a.len() != b.len() {
        return false;
    }
    let mut k: usize = 0;
    while k < a.len()
        invariant
            k <= a.len(),
            a.len() == b.len(),
            forall|j: int| 0 <= j < k ==> a@[j] == b@[j],
        decreases a.len() - k,
    {
        if a[k] != b[k] {
            return false;
        }
        k += 1;
    }
    assert(a@ =~= b@);
    true
}

/// A directory entry.
#[derive(Clone, Copy)]
pub struct Dirent {
    pub inum: u16,
    pub name: [u8; DIRSIZ],
}

/// An inode held for exclusive use, together with the content of its file.
pub struct InodeGuard {
    /// Device number
    pub dev: u32,
    /// Inode number
    pub inum: u32,
    pub inner: InodeInner,
    /// The content of the file, `inner.size` bytes.
    pub data: Vec<u8>,
}

impl Dirent {
    /// The name field, `DIRSIZ` bytes.
    pub open spec fn raw_name(&self) -> Seq<u8> {
        self.name@
    }

    /// The bytes that store this entry.
    pub open spec fn bytes(&self) -> Seq<u8> {
        entry_bytes(self.inum, self.raw_name())
    }

    /// An unused entry: inode number zero, name field all NUL.
    pub fn empty() -> (r: Self)
        ensures
            r.inum == 0,
            r.raw_name() == Seq::new(DIRSIZ as nat, |i: int| 0u8),
    {
        let r = Dirent { inum: 0, name: [0;DIRSIZ] };
        assert(r.raw_name() =~= Seq::new(DIRSIZ as nat, |i: int| 0u8));
        r
    }

    /// Reads the entry at byte offset `off` of the file of `ip`. Fails if the
    /// file does not hold a whole entry there.
    pub fn new(ip: &InodeGuard, off: u32) -> (r: Result<Dirent, ()>)
        ensures
            r is Ok <==> off + DIRENT_SIZE <= ip.data@.len(),
            r matches Ok(d) ==> d.inum == entry_inum(ip.data@, off as int) && d.raw_name()
                == entry_raw_name(ip.data@, off as int),
    {
        let len = ip.data.len();
        let off = off as usize;
        if len < DIRENT_SIZE || off > len - DIRENT_SIZE {
            return Err(());
        }
        let lo: u16 = ip.data[off] as u16;
        let hi: u16 = ip.data[off + 1] as u16;
        let mut name: [u8; DIRSIZ] = [0;DIRSIZ];
        let mut k: usize = 0;
        while k < DIRSIZ
            invariant
                k <= DIRSIZ,
                len == ip.data@.len(),
                off + DIRENT_SIZE <= len,
                forall|j: int| 0 <= j < k ==> name@[j] == ip.data@[off + 2 + j],
            decreases DIRSIZ - k,
        {
            name[k] = ip.data[off + 2 + k];
            k += 1;
        }
        let d = Dirent { inum: lo + 256 * hi, name };
        assert(d.raw_name() =~= entry_raw_name(ip.data@, off as int));
        Ok(d)
    }

    /// Fills in the name. If `name` is shorter than `DIRSIZ`, a NUL is written
    /// after it; the bytes of the field behind that NUL keep their values.
    pub fn set_name(&mut self, name: &[u8])
        requires
            name@.len() <= DIRSIZ,
        ensures
            final(self).inum == old(self).inum,
            final(self).raw_name() == renamed(old(self).raw_name(), name@),
    {
        let n = name.len();
        let mut k: usize = 0;
        while k < n
            invariant
                k <= n,
                n == name@.len(),
                n <= DIRSIZ,
                self.inum == old(self).inum,
                forall|j: int| 0 <= j < k ==> self.name@[j] == name@[j],
                forall|j: int| k <= j < DIRSIZ ==> self.name@[j] == old(self).name@[j],
            decreases n - k,
        {
            self.name[k] = name[k];
            k += 1;
        }
        if n < DIRSIZ {
            self.name[n] = 0;
        }
        assert(self.raw_name() =~= renamed(old(self).raw_name(), name@));
    }

    /// The name: the bytes of the name field before its first NUL.
    pub fn get_name(&self) -> (r: Vec<u8>)
        ensures
            r@ == stored_name(self.raw_name()),
    {
        let mut r: Vec<u8> = Vec::new();
        let mut k: usize = 0;
        while k < DIRSIZ && self.name[k] != 0
            invariant
                k <= DIRSIZ,
                r@ == self.name@.take(k as int),
                nul_from(self.name@, 0) == nul_from(self.name@, k as int),
            decreases DIRSIZ - k,
        {
            r.push(self.name[k]);
            assert(r@ =~= self.name@.take(k + 1));
            k += 1;
        }
        r
    }
}

/// The number of whole entries in `data`.
pub open spec fn entry_count(data: Seq<u8>) -> int {
    data.len() as int / DIRENT_SIZE as int
}

/// The inode number of entry number `k` of `data`.
pub open spec fn slot_inum(data: Seq<u8>, k: int) -> int {
    entry_inum(data, k * DIRENT_SIZE as int)
}

/// Entry number `k` of `data` is in use and carries `name`.
pub open spec fn slot_names(data: Seq<u8>, k: int, name: Seq<u8>) -> bool {
    names_at(data, k * DIRENT_SIZE as int, name)
}

/// Some entry of `data` is in use and carries `name`.
pub open spec fn has_name(data: Seq<u8>, name: Seq<u8>) -> bool {
    exists|k: int| 0 <= k < entry_count(data) && slot_names(data, k, name)
}

/// The first entry of `data` that is in use and carries `name` stands at
/// byte offset `off` and holds inode number `inum`.
pub open spec fn is_lookup(data: Seq<u8>, name: Seq<u8>, inum: u32, off: u32) -> bool {
    let k = off as int / DIRENT_SIZE as int;
    &&& off == k * DIRENT_SIZE
    &&& 0 <= k < entry_count(data)
    &&& slot_names(data, k, name)
    &&& inum == slot_inum(data, k)
    &&& forall|j: int| 0 <= j < k ==> !slot_names(data, j, name)
}

/// What resolving a path does at the inode that it has reached.
pub enum Walk<'a> {
    /// The path does not resolve.
    Fail,
    /// The path ends here: this inode is the result.
    Found,
    /// The parent was asked for, and this inode is it; `name` is the final
    /// element of the path.
    FoundParent { name: &'a [u8] },
    /// The walk goes on at inode number `inum` of the same device, with
    /// `rest` of the path.
    Descend { inum: u32, rest: &'a [u8] },
}

/// The number of the first unused entry of `data` at or after entry `k`, or
/// the number of entries if every one of them is in use.
pub open spec fn first_unused(data: Seq<u8>, k: int) -> int
    decreases entry_count(data) - k,
{
    if k < 0 || k >= entry_count(data) {
        entry_count(data)
    } else if slot_inum(data, k) == 0 {
        k
    } else {
        first_unused(data, k + 1)
    }
}

/// The name field that a new link finds in entry number `k` of `data`: the
/// field of that entry, or NULs if the entry is appended to the directory.
pub open spec fn prior_raw_name(data: Seq<u8>, k: int) -> Seq<u8> {
    if k < entry_count(data) {
        entry_raw_name(data, k * DIRENT_SIZE as int)
    } else {
        Seq::new(DIRSIZ as nat, |i: int| 0u8)
    }
}

/// The content of a directory after `name` has been linked to `inum` in it:
/// the first unused entry, or a new one at the end, holds the link.
pub open spec fn linked(data: Seq<u8>, name: Seq<u8>, inum: u32) -> Seq<u8> {
    let k = first_unused(data, 0);
    written(
        data,
        k * DIRENT_SIZE as int,
        entry_bytes((inum % 0x10000) as u16, renamed(prior_raw_name(data, k), name)),
    )
}

impl InodeGuard {
    /// The content is as long as the inode says and is made of whole entries.
    pub open spec fn holds_entries(&self) -> bool {
        self.data@.len() == self.inner.size && self.inner.size % (DIRENT_SIZE as u32) == 0
    }

    /// Whether the content is as long as the inode says and is made of whole
    /// entries.
    pub fn has_entries(&self) -> (r: bool)
        ensures
            r == self.holds_entries(),
    {
        self.data.len() <= 0xffff_ffff && self.data.len() as u32 == self.inner.size
            && self.inner.size % (DIRENT_SIZE as u32) == 0
    }

    /// Writes `de` at byte offset `off`, which is the offset of an entry or
    /// the end of the file, and lets the inode's size follow.
    fn write_entry(&mut self, off: usize, de: &Dirent)
        requires
            old(self).data@.len() == old(self).inner.size,
            off + DIRENT_SIZE <= old(self).data@.len() || off == old(self).data@.len(),
            off + DIRENT_SIZE <= u32::MAX,
        ensures
            final(self).data@ == written(old(self).data@, off as int, de.bytes()),
            final(self).data@.len() == final(self).inner.size,
            final(self).dev == old(self).dev,
            final(self).inum == old(self).inum,
            final(self).inner == (InodeInner { size: final(self).inner.size, ..old(self).inner }),
    {
        let lo: u8 = (de.inum % 256) as u8;
        let hi: u8 = (de.inum / 256) as u8;
        if off == self.data.len() {
            self.data.push(lo);
            self.data.push(hi);
            let mut k: usize = 0;
            while k < DIRSIZ
                invariant
                    k <= DIRSIZ,
                    self.data@ == old(self).data@ + seq![lo, hi] + de.name@.take(k as int),
                    self.dev == old(self).dev,
                    self.inum == old(self).inum,
                    self.inner == old(self).inner,
                decreases DIRSIZ - k,
            {
                self.data.push(de.name[k]);
                assert(self.data@ =~= old(self).data@ + seq![lo, hi] + de.name@.take(k + 1));
                k += 1;
            }
            assert(de.name@.take(DIRSIZ as int) =~= de.name@);
            assert(self.data@ =~= written(old(self).data@, off as int, de.bytes()));
            self.inner.size = self.data.len() as u32;
        } else {
            self.data[off] = lo;
            self.data[off + 1] = hi;
            let mut k: usize = 0;
            while k < DIRSIZ
                invariant
                    k <= DIRSIZ,
                    off + DIRENT_SIZE <= old(self).data@.len(),
                    off + DIRENT_SIZE <= u32::MAX,
                    self.data@.len() == old(self).data@.len(),
                    self.data@[off as int] == lo,
                    self.data@[off + 1] == hi,
                    forall|j: int| 0 <= j < k ==> self.data@[off + 2 + j] == de.name@[j],
                    forall|j: int|
                        0 <= j < off || off + 2 + k <= j < self.data@.len() ==> self.data@[j] == old(
                            self,
                        ).data@[j],
                    self.dev == old(self).dev,
                    self.inum == old(self).inum,
                    self.inner == old(self).inner,
                decreases DIRSIZ - k,
            {
                self.data[off + 2 + k] = de.name[k];
                k += 1;
            }
            assert(self.data@ =~= written(old(self).data@, off as int, de.bytes()));
        }
    }

    /// The on-disk inode to write after a change to this inode, so that the
    /// disk holds what the in-memory copy holds.
    pub fn update(&self) -> (r: Dinode)
        ensures
            r == self.inner.on_disk(),
    {
        self.inner.to_dinode()
    }

    /// The entries of the directory in order, each with its byte offset.
    pub fn iter_dirents(&self) -> (r: Vec<(Dirent, u32)>)
        requires
            self.holds_entries(),
        ensures
            r@.len() == entry_count(self.data@),
            forall|k: int|
                #![trigger r@[k]]
                0 <= k < r@.len() ==> r@[k].1 == k * DIRENT_SIZE && r@[k].0.inum == slot_inum(
                    self.data@,
                    k,
                ) && r@[k].0.raw_name() == entry_raw_name(self.data@, k * DIRENT_SIZE as int),
    {
        let n: u32 = self.inner.size / (DIRENT_SIZE as u32);
        let mut r: Vec<(Dirent, u32)> = Vec::new();
        let mut k: u32 = 0;
        while k < n
            invariant
                k <= n,
                self.holds_entries(),
                n == entry_count(self.data@),
                r@.len() == k,
                forall|j: int|
                    #![trigger r@[j]]
                    0 <= j < k ==> r@[j].1 == j * DIRENT_SIZE && r@[j].0.inum == slot_inum(
                        self.data@,
                        j,
                    ) && r@[j].0.raw_name() == entry_raw_name(self.data@, j * DIRENT_SIZE as int),
            decreases n - k,
        {
            let off: u32 = k * (DIRENT_SIZE as u32);
            match Dirent::new(self, off) {
                Ok(de) => {
                    r.push((de, off));
                },
                Err(_) => {
                    assert(false);
                },
            }
            k += 1;
        }
        r
    }

    /// Is the directory empty except for its first two entries, "." and ".."?
    pub fn is_dir_empty(&self) -> (r: bool)
        requires
            self.holds_entries(),
        ensures
            r == forall|k: int| 2 <= k < entry_count(self.data@) ==> slot_inum(self.data@, k) == 0,
    {
        let n: u32 = self.inner.size / (DIRENT_SIZE as u32);
        let mut k: u32 = 2;
        while k < n
            invariant
                2 <= k,
                self.holds_entries(),
                n == entry_count(self.data@),
                forall|j: int| 2 <= j < k ==> slot_inum(self.data@, j) == 0,
            decreases n - k,
        {
            match Dirent::new(self, k * (DIRENT_SIZE as u32)) {
                Ok(de) => {
                    if de.inum != 0 {
                        assert(slot_inum(self.data@, k as int) != 0);
                        return false;
                    }
                },
                Err(_) => {},
            }
            k += 1;
        }
        true
    }

    /// Looks for `name` in the directory. The result is the inode number and
    /// the byte offset of the first entry in use that carries `name`.
    pub fn dirlookup(&self, name: &[u8]) -> (r: Result<(u32, u32), ()>)
        requires
            self.holds_entries(),
            self.inner.typ == InodeType::Dir,
        ensures
            r is Ok <==> has_name(self.data@, name@),
            r matches Ok((inum, off)) ==> is_lookup(self.data@, name@, inum, off),
    {
        let n: u32 = self.inner.size / (DIRENT_SIZE as u32);
        let mut k: u32 = 0;
        while k < n
            invariant
                self.holds_entries(),
                n == entry_count(self.data@),
                forall|j: int| 0 <= j < k ==> !slot_names(self.data@, j, name@),
            decreases n - k,
        {
            let off: u32 = k * (DIRENT_SIZE as u32);
            match Dirent::new(self, off) {
                Ok(de) => {
                    if de.inum != 0 {
                        let stored = de.get_name();
                        if bytes_eq(stored.as_slice(), name) {
                            assert(slot_names(self.data@, k as int, name@));
                            return Ok((de.inum as u32, off));
                        }
                    }
                },
                Err(_) => {},
            }
            assert(!slot_names(self.data@, k as int, name@));
            k += 1;
        }
        Err(())
    }

    /// One step of resolving `path` at this inode; with `parent` set, the
    /// inode wanted is the parent of the one that the path names.
    ///
    /// A path without an element ends here: this inode is the result, unless
    /// the parent was asked for, which such a path does not have. Otherwise
    /// this inode has to be a directory. If the parent was asked for and the
    /// first element is the last, this inode is the result. Otherwise the
    /// first element is looked up in the directory, and the walk goes on at
    /// the inode found, or fails if the name is not there.
    pub fn namex<'a>(&self, path: &'a [u8], parent: bool) -> (r: Walk<'a>)
        requires
            self.inner.typ == InodeType::Dir ==> self.holds_entries(),
        ensures
            !has_elem(path@) ==> (if parent {
                r is Fail
            } else {
                r is Found
            }),
            has_elem(path@) && self.inner.typ != InodeType::Dir ==> r is Fail,
            has_elem(path@) && self.inner.typ == InodeType::Dir && parent && after_first_elem(
                path@,
            ).len() == 0 ==> r is FoundParent && r->name@ == first_elem(path@),
            has_elem(path@) && self.inner.typ == InodeType::Dir && !(parent && after_first_elem(
                path@,
            ).len() == 0) ==> (if has_name(self.data@, first_elem(path@)) {
                &&& r is Descend
                &&& r->rest@ == after_first_elem(path@)
                &&& exists|off: u32| is_lookup(self.data@, first_elem(path@), r->inum, off)
            } else {
                r is Fail
            }),
    {
        match skipelem(path) {
            None => {
                if parent {
                    Walk::Fail
                } else {
                    Walk::Found
                }
            },
            Some((rest, name)) => {
                if self.inner.typ != InodeType::Dir {
                    Walk::Fail
                } else if parent && rest.len() == 0 {
                    Walk::FoundParent { name }
                } else {
                    match self.dirlookup(name) {
                        Ok((inum, off)) => {
                            let r = Walk::Descend { inum, rest };
                            assert(is_lookup(self.data@, first_elem(path@), r->inum, off));
                            r
                        },
                        Err(_) => Walk::Fail,
                    }
                }
            },
        }
    }

    /// Writes a new directory entry (`name`, `inum`) into the directory. Fails,
    /// and leaves the directory as it was, if `name` is already present.
    /// Otherwise the first unused entry takes the link; with no unused entry
    /// the directory grows by one.
    pub fn dirlink(&mut self, name: &[u8], inum: u32) -> (r: Result<(), ()>)
        requires
            old(self).holds_entries(),
            old(self).inner.typ == InodeType::Dir,
            name@.len() <= DIRSIZ,
            old(self).inner.size + DIRENT_SIZE <= u32::MAX,
        ensures
            r is Err <==> has_name(old(self).data@, name@),
            r is Err ==> *final(self) == *old(self),
            r is Ok ==> {
                &&& final(self).data@ == linked(old(self).data@, name@, inum)
                &&& final(self).data@.len() == final(self).inner.size
                &&& final(self).dev == old(self).dev
                &&& final(self).inum == old(self).inum
                &&& final(self).inner == (InodeInner {
                    size: final(self).inner.size,
                    ..old(self).inner
                })
            },
    {
        if self.dirlookup(name).is_ok() {
            return Err(());
        }
        let n: u32 = self.inner.size / (DIRENT_SIZE as u32);
        let mut de = Dirent::empty();
        let mut k: u32 = 0;
        while k < n
            invariant_except_break
                first_unused(self.data@, 0) == first_unused(self.data@, k as int),
                de.raw_name() == Seq::new(DIRSIZ as nat, |i: int| 0u8),
            invariant
                k <= n,
                *self == *old(self),
                self.holds_entries(),
                n == entry_count(self.data@),
            ensures
                k == first_unused(self.data@, 0),
                de.raw_name() == prior_raw_name(self.data@, k as int),
            decreases n - k,
        {
            match Dirent::new(self, k * (DIRENT_SIZE as u32)) {
                Ok(found) => {
                    if found.inum == 0 {
                        de = found;
                        assert(slot_inum(self.data@, k as int) == 0);
                        break ;
                    }
                    assert(slot_inum(self.data@, k as int) != 0);
                },
                Err(_) => {},
            }
            k += 1;
        }
        de.inum = (inum % 0x10000) as u16;
        de.set_name(name);
        self.write_entry((k * (DIRENT_SIZE as u32)) as usize, &de);
        Ok(())
    }
}

/// In a name field that `name` was written into, the search for the first
/// NUL from any place inside the name ends right behind the name.
proof fn lemma_nul_behind_name(raw: Seq<u8>, name: Seq<u8>, k: int)
    requires
        name.len() <= raw.len(),
        forall|i: int| 0 <= i < name.len() ==> name[i] != 0,
        0 <= k <= name.len(),
    ensures
        nul_from(renamed(raw, name), k) == name.len(),
    decreases name.len() - k,
{
    let r = renamed(raw, name);
    if k < name.len() {
        assert(r[k] == name[k]);
        lemma_nul_behind_name(raw, name, k + 1);
    } else if name.len() < raw.len() {
        assert(r[k] == 0);
    }
}

/// A name without NUL that fits the name field is read back as it was
/// written, whatever the field held before.
pub proof fn lemma_name_round_trip(raw: Seq<u8>, name: Seq<u8>)
    requires
        name.len() <= raw.len(),
        forall|i: int| 0 <= i < name.len() ==> name[i] != 0,
    ensures
        stored_name(renamed(raw, name)) == name,
{
    lemma_nul_behind_name(raw, name, 0);
    assert(renamed(raw, name).take(name.len() as int) =~= name);
}

/// The first unused entry at or after entry `k` is an entry at or after
/// `k`, or the end of the directory.
pub proof fn lemma_first_unused(data: Seq<u8>, k: int)
    requires
        0 <= k <= entry_count(data),
    ensures
        k <= first_unused(data, k) <= entry_count(data),
    decreases entry_count(data) - k,
{
    if k < entry_count(data) && slot_inum(data, k) != 0 {
        lemma_first_unused(data, k + 1);
    }
}

/// After a name has been linked to a nonzero inode number, the directory
/// carries that name: a lookup of it succeeds. The name holds no NUL and fits
/// the name field, and the inode number is one that an entry can hold.
pub proof fn lemma_linked_has_name(data: Seq<u8>, name: Seq<u8>, inum: u32)
    requires
        data.len() % DIRENT_SIZE as nat == 0,
        name.len() <= DIRSIZ,
        forall|i: int| 0 <= i < name.len() ==> name[i] != 0,
        0 < inum < 0x10000,
    ensures
        has_name(linked(data, name, inum), name),
        slot_names(linked(data, name, inum), first_unused(data, 0), name),
        slot_inum(linked(data, name, inum), first_unused(data, 0)) == inum,
{
    let k = first_unused(data, 0);
    lemma_first_unused(data, 0);
    let off = k * DIRENT_SIZE as int;
    let raw = renamed(prior_raw_name(data, k), name);
    let bytes = entry_bytes((inum % 0x10000) as u16, raw);
    let after = linked(data, name, inum);
    assert(prior_raw_name(data, k).len() == DIRSIZ);
    assert(raw.len() == DIRSIZ);
    assert(bytes.len() == DIRENT_SIZE);
    assert(0 <= off <= data.len());
    assert(off + DIRENT_SIZE <= data.len() || off == data.len());
    assert(after.len() == if off == data.len() {
        data.len() + DIRENT_SIZE
    } else {
        data.len() as int
    });
    assert forall|i: int| 0 <= i < DIRENT_SIZE implies after[off + i] == bytes[i] by {}
    assert(entry_raw_name(after, off) =~= raw);
    lemma_name_round_trip(prior_raw_name(data, k), name);
    assert(entry_inum(after, off) == inum);
    assert(k < entry_count(after));
    assert(slot_names(after, k, name));
}

} // verus!
