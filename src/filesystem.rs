use vstd::prelude::*;

use crate::error::IoErrorKind;
use crate::mbr::PartitionTableEntry;

verus! {

pub const _S_IFIFO: u8 = 1;

pub const _S_IFCHR: u8 = 2;

pub const _S_IFDIR: u8 = 4;

pub const _S_IFBLK: u8 = 6;

pub const _S_IFREG: u8 = 8;

pub const _S_IFLNK: u8 = 10;

pub const _S_IFSOCK: u8 = 12;

/// Kind of a directory entry, as the Unix `st_mode` type nibble names it.
#[derive(Clone, Copy, Debug, PartialEq, Eq, Hash, Structural)]
pub enum DirEntryType {
    Unknown,
    Fifo,
    CharacterSpecial,
    Directory,
    BlockSpecial,
    RegularFile,
    SymbolicLink,
    Socket,
}

pub open spec fn spec_entry_type(nibble: u8) -> DirEntryType {
    if nibble == _S_IFIFO {
        DirEntryType::Fifo
    } else if nibble == _S_IFCHR {
        DirEntryType::CharacterSpecial
    } else if nibble == _S_IFDIR {
        DirEntryType::Directory
    } else if nibble == _S_IFBLK {
        DirEntryType::BlockSpecial
    } else if nibble == _S_IFREG {
        DirEntryType::RegularFile
    } else if nibble == _S_IFLNK {
        DirEntryType::SymbolicLink
    } else if nibble == _S_IFSOCK {
        DirEntryType::Socket
    } else {
        DirEntryType::Unknown
    }
}

pub open spec fn spec_type_nibble(t: DirEntryType) -> u8 {
    match t {
        DirEntryType::Fifo => _S_IFIFO,
        DirEntryType::CharacterSpecial => _S_IFCHR,
        DirEntryType::Directory => _S_IFDIR,
        DirEntryType::BlockSpecial => _S_IFBLK,
        DirEntryType::RegularFile => _S_IFREG,
        DirEntryType::SymbolicLink => _S_IFLNK,
        DirEntryType::Socket => _S_IFSOCK,
        DirEntryType::Unknown => 0,
    }
}

impl DirEntryType {
    /// The entry type a type nibble names; unassigned nibbles are `Unknown`.
    pub fn from_nibble(inner: u8) -> (r: DirEntryType)
        ensures
            r == spec_entry_type(inner),
    {
        if inner == _S_IFIFO {
            DirEntryType::Fifo
        } else if inner == _S_IFCHR {
            DirEntryType::CharacterSpecial
        } else if inner == _S_IFDIR {
            DirEntryType::Directory
        } else if inner == _S_IFBLK {
            DirEntryType::BlockSpecial
        } else if inner == _S_IFREG {
            DirEntryType::RegularFile
        } else if inner == _S_IFLNK {
            DirEntryType::SymbolicLink
        } else if inner == _S_IFSOCK {
            DirEntryType::Socket
        } else {
            DirEntryType::Unknown
        }
    }

    /// The type nibble of this entry type; `Unknown` has nibble 0.
    pub fn to_nibble(&self) -> (r: u8)
        ensures
            r == spec_type_nibble(*self),
    {
        match *self {
            DirEntryType::Fifo => _S_IFIFO,
            DirEntryType::CharacterSpecial => _S_IFCHR,
            DirEntryType::Directory => _S_IFDIR,
            DirEntryType::BlockSpecial => _S_IFBLK,
            DirEntryType::RegularFile => _S_IFREG,
            DirEntryType::SymbolicLink => _S_IFLNK,
            DirEntryType::Socket => _S_IFSOCK,
            DirEntryType::Unknown => 0,
        }
    }
}

impl From<u8> for DirEntryType {
    fn from(inner: u8) -> (r: DirEntryType) {
        DirEntryType::from_nibble(inner)
    }
}

impl vstd::std_specs::convert::FromSpecImpl<u8> for DirEntryType {
    open spec fn obeys_from_spec() -> bool {
        true
    }

    open spec fn from_spec(inner: u8) -> DirEntryType {
        spec_entry_type(inner)
    }
}

impl From<DirEntryType> for u8 {
    fn from(wrapped: DirEntryType) -> (r: u8) {
        wrapped.to_nibble()
    }
}

impl vstd::std_specs::convert::FromSpecImpl<DirEntryType> for u8 {
    open spec fn obeys_from_spec() -> bool {
        true
    }

    open spec fn from_spec(wrapped: DirEntryType) -> u8 {
        spec_type_nibble(wrapped)
    }
}

/// The type nibble of a mode word: bits 12 to 15.
pub open spec fn spec_flags_nibble(flags: u64) -> u8 {
    ((flags / 4096) % 16) as u8
}

/// The mode word of a FAT directory entry: the type nibble of a directory or
/// a regular file, and read permission for all, plus write permission unless
/// the entry is read-only.
pub open spec fn spec_entry_flags(is_dir: bool, read_only: bool) -> u64 {
    ((if is_dir {
        _S_IFDIR as u64
    } else {
        _S_IFREG as u64
    }) * 4096 + if read_only {
        0o444u64
    } else {
        0o666u64
    }) as u64
}

/// The mode word of a FAT directory entry.
pub fn entry_flags(is_dir: bool, read_only: bool) -> (r: u64)
    ensures
        r == spec_entry_flags(is_dir, read_only),
        spec_entry_type(spec_flags_nibble(r)) == if is_dir {
            DirEntryType::Directory
        } else {
            DirEntryType::RegularFile
        },
{
    let type_bits: u64 = if is_dir {
        (_S_IFDIR as u64) * 4096
    } else {
        (_S_IFREG as u64) * 4096
    };
    let permission_bits: u64 = if read_only {
        0o444
    } else {
        0o666
    };
    type_bits + permission_bits
}

/// One entry of a directory listing.
#[derive(Clone, Debug, PartialEq, Eq)]
pub struct DirEntryData {
    pub name: String,
    pub len: usize,
    pub flags: u64,
}

impl DirEntryData {
    /// The entry's type, read from the type nibble of its mode word: a FAT
    /// entry is a directory (4) or a regular file (8), anything else is
    /// unknown.
    pub fn entry_type(&self) -> (r: DirEntryType)
        ensures
            r == if spec_flags_nibble(self.flags) == _S_IFDIR {
                DirEntryType::Directory
            } else if spec_flags_nibble(self.flags) == _S_IFREG {
                DirEntryType::RegularFile
            } else {
                DirEntryType::Unknown
            },
    {
        let flag_byte = ((self.flags / 4096) % 16) as u8;
        if flag_byte == _S_IFDIR {
            DirEntryType::Directory
        } else if flag_byte == _S_IFREG {
            DirEntryType::RegularFile
        } else {
            DirEntryType::Unknown
        }
    }

    /// A copy of this entry.
    pub fn duplicate(&self) -> (r: DirEntryData)
        ensures
            r.name@ == self.name@,
            r.len == self.len,
            r.flags == self.flags,
    {
        DirEntryData { name: self.name.clone(), len: self.len, flags: self.flags }
    }
}

/// Space figures of a mounted file system.
#[derive(Clone, Copy, Debug, PartialEq, Eq, Structural)]
pub struct FsStats {
    pub cluster_size: u64,
    pub free_clusters: u64,
    pub total_clusters: u64,
}

impl FsStats {
    /// The size of the file system in bytes, if it fits in 64 bits.
    pub fn total_bytes(&self) -> (r: Option<u64>)
        ensures
            self.cluster_size * self.total_clusters <= u64::MAX ==> r == Some(
                (self.cluster_size * self.total_clusters) as u64,
            ),
            self.cluster_size * self.total_clusters > u64::MAX ==> r is None,
    {
        self.cluster_size.checked_mul(self.total_clusters)
    }

    /// The free space in bytes, if it fits in 64 bits.
    pub fn free_bytes(&self) -> (r: Option<u64>)
        ensures
            self.cluster_size * self.free_clusters <= u64::MAX ==> r == Some(
                (self.cluster_size * self.free_clusters) as u64,
            ),
            self.cluster_size * self.free_clusters > u64::MAX ==> r is None,
    {
        self.cluster_size.checked_mul(self.free_clusters)
    }
}

/// A FAT file system can be mounted on a partition only when its table entry
/// announces FAT12, FAT16 or FAT32; any other type is invalid data.
pub fn check_fat_partition(part: &PartitionTableEntry) -> (r: Result<(), IoErrorKind>)
    ensures
        part.partition_type.spec_is_fat() ==> r is Ok,
        !part.partition_type.spec_is_fat() ==> r == Err::<(), IoErrorKind>(
            IoErrorKind::InvalidData,
        ),
{
    if part.partition_type.is_fat() {
        Ok(())
    } else {
        Err(IoErrorKind::InvalidData)
    }
}

/// A cursor over a directory listing that has been read in full.
pub struct FatfsSysDirIter<'a> {
    items: &'a Vec<DirEntryData>,
    idx: usize,
}

impl<'a> FatfsSysDirIter<'a> {
    pub closed spec fn items(&self) -> Seq<DirEntryData> {
        self.items@
    }

    pub closed spec fn index(&self) -> nat {
        self.idx as nat
    }

    /// A cursor at the first entry of `items`.
    pub fn new(items: &'a Vec<DirEntryData>) -> (r: Self)
        ensures
            r.items() == items@,
            r.index() == 0,
    {
        FatfsSysDirIter { items, idx: 0 }
    }

    /// The entry under the cursor, if any, moving the cursor past it.
    pub fn next(&mut self) -> (r: Option<DirEntryData>)
        requires
            old(self).index() < usize::MAX,
        ensures
            final(self).items() == old(self).items(),
            final(self).index() == old(self).index() + 1,
            old(self).index() < old(self).items().len() ==> (r matches Some(e) && e.name@ == old(
                self,
            ).items()[old(self).index() as int].name@ && e.len == old(self).items()[old(
                self,
            ).index() as int].len && e.flags == old(self).items()[old(self).index() as int].flags),
            old(self).index() >= old(self).items().len() ==> r is None,
    {
        let retval = if self.idx < self.items.len() {
            Some(self.items[self.idx].duplicate())
        } else {
            None
        };
        self.idx = self.idx + 1;
        retval
    }
}

} // verus!
