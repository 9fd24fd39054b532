use vstd::prelude::*;

use crate::error::{namespaced, LibnxErrMapper, NX_FATDRIVE_ERR_MBR_PREFIX, NX_FATDRIVE_ERR_MODULE};

verus! {

/// Size of a master boot record.
pub const MBR_SIZE: usize = 512;

/// Offset of the partition table within the record.
pub const TABLE_OFFSET: usize = 446;

/// Size of one partition table entry.
pub const ENTRY_SIZE: usize = 16;

/// Number of entries in the partition table.
pub const MAX_ENTRIES: usize = 4;

/// The kind of file system a partition table entry announces.
#[derive(Clone, Copy, Debug, PartialEq, Eq, Structural)]
pub enum PartitionType {
    Fat12(u8),
    Fat16(u8),
    Fat32(u8),
    Fat32Lba(u8),
    Unknown(u8),
}

pub open spec fn spec_partition_type(tag: u8) -> PartitionType {
    if tag == 0x01 {
        PartitionType::Fat12(tag)
    } else if tag == 0x04 || tag == 0x06 {
        PartitionType::Fat16(tag)
    } else if tag == 0x0B || tag == 0x0C {
        PartitionType::Fat32(tag)
    } else if tag == 0x0E {
        PartitionType::Fat32Lba(tag)
    } else {
        PartitionType::Unknown(tag)
    }
}

impl PartitionType {
    /// The partition type that a type byte of the table announces.
    pub fn from_mbr_tag_byte(tag: u8) -> (r: PartitionType)
        ensures
            r == spec_partition_type(tag),
    {
        if tag == 0x01 {
            PartitionType::Fat12(tag)
        } else if tag == 0x04 || tag == 0x06 {
            PartitionType::Fat16(tag)
        } else if tag == 0x0B || tag == 0x0C {
            PartitionType::Fat32(tag)
        } else if tag == 0x0E {
            PartitionType::Fat32Lba(tag)
        } else {
            PartitionType::Unknown(tag)
        }
    }

    pub open spec fn spec_tag(&self) -> u8 {
        match *self {
            PartitionType::Fat12(t) => t,
            PartitionType::Fat16(t) => t,
            PartitionType::Fat32(t) => t,
            PartitionType::Fat32Lba(t) => t,
            PartitionType::Unknown(t) => t,
        }
    }

    /// The type byte this partition type was read from.
    pub fn to_mbr_tag_byte(&self) -> (r: u8)
        ensures
            r == self.spec_tag(),
    {
        match *self {
            PartitionType::Fat12(t) => t,
            PartitionType::Fat16(t) => t,
            PartitionType::Fat32(t) => t,
            PartitionType::Fat32Lba(t) => t,
            PartitionType::Unknown(t) => t,
        }
    }

    pub open spec fn spec_is_fat(&self) -> bool {
        !(*self is Unknown)
    }

    /// Whether the partition holds a FAT12, FAT16 or FAT32 file system.
    pub fn is_fat(&self) -> (r: bool)
        ensures
            r == self.spec_is_fat(),
    {
        match *self {
            PartitionType::Unknown(_) => false,
            _ => true,
        }
    }
}

/// One entry of the partition table.
#[derive(Clone, Copy, Debug, PartialEq, Eq, Structural)]
pub struct PartitionTableEntry {
    pub status: u8,
    pub partition_type: PartitionType,
    pub logical_block_address: u32,
    pub sector_count: u32,
}

impl PartitionTableEntry {
    /// The byte on the device where the partition starts.
    pub fn start_byte(&self, block_size: u32) -> (r: u64)
        ensures
            r == self.logical_block_address as nat * block_size as nat,
    {
        proof {
            assert(self.logical_block_address as nat * block_size as nat <= 0xFFFF_FFFFu64
                * 0xFFFF_FFFFu64) by (nonlinear_arith);
        }
        (self.logical_block_address as u64) * (block_size as u64)
    }
}

/// The little-endian 32-bit number in the four bytes of `b` at `off`.
pub open spec fn le_u32(b: Seq<u8>, off: int) -> u32 {
    (b[off] as nat + b[off + 1] as nat * 0x100 + b[off + 2] as nat * 0x1_0000 + b[off + 3] as nat
        * 0x100_0000) as u32
}

/// The partition table entry in slot `i` of the record `b`.
pub open spec fn spec_entry(b: Seq<u8>, i: int) -> PartitionTableEntry {
    let off = TABLE_OFFSET + i * ENTRY_SIZE;
    PartitionTableEntry {
        status: b[off],
        partition_type: spec_partition_type(b[off + 4]),
        logical_block_address: le_u32(b, off + 8),
        sector_count: le_u32(b, off + 12),
    }
}

/// Why a buffer is not a master boot record. A wrong suffix carries the two
/// bytes found in its place.
#[derive(Clone, Copy, Debug, PartialEq, Eq, Structural)]
pub enum MbrError {
    BufferWrongSizeError { expected: usize, actual: usize },
    InvalidMBRSuffix { first: u8, second: u8 },
}

impl LibnxErrMapper for MbrError {
    open spec fn spec_code(err: MbrError) -> u32 {
        match err {
            MbrError::BufferWrongSizeError { .. } => namespaced(NX_FATDRIVE_ERR_MBR_PREFIX, 0x3000),
            MbrError::InvalidMBRSuffix { first, second } => namespaced(
                NX_FATDRIVE_ERR_MBR_PREFIX,
                (0x2000 + first as nat * 256 + second as nat * 16) as u32,
            ),
        }
    }

    fn map(err: MbrError) -> (r: u32) {
        let desc: u32 = match err {
            MbrError::BufferWrongSizeError { .. } => 0x3000,
            MbrError::InvalidMBRSuffix { first, second } => 0x2000 + (first as u32) * 256 + (second as u32) * 16,
        };
        (desc + NX_FATDRIVE_ERR_MBR_PREFIX) * 256 + NX_FATDRIVE_ERR_MODULE
    }
}

/// A parsed master boot record: its four partition table entries.
pub struct MasterBootRecord {
    entries: Vec<PartitionTableEntry>,
}

fn read_le_u32(b: &[u8], off: usize) -> (r: u32)
    requires
        off + 4 <= b@.len(),
    ensures
        r == le_u32(b@, off as int),
{
    (b[off] as u32) + (b[off + 1] as u32) * 0x100 + (b[off + 2] as u32) * 0x1_0000 + (b[off
        + 3] as u32) * 0x100_0000
}

impl MasterBootRecord {
    pub closed spec fn view(&self) -> Seq<PartitionTableEntry> {
        self.entries@
    }

    /// Parses the record at the start of `bytes`: its last two bytes must be
    /// `0x55 0xAA`. Partitions of any type are kept.
    pub fn from_bytes(bytes: &[u8]) -> (r: Result<MasterBootRecord, MbrError>)
        ensures
            bytes@.len() < MBR_SIZE ==> r == Err::<MasterBootRecord, MbrError>(
                MbrError::BufferWrongSizeError { expected: MBR_SIZE, actual: bytes@.len() as usize },
            ),
            bytes@.len() >= MBR_SIZE && !(bytes@[510] == 0x55 && bytes@[511] == 0xAA) ==> r
                == Err::<MasterBootRecord, MbrError>(
                MbrError::InvalidMBRSuffix { first: bytes@[510], second: bytes@[511] },
            ),
            bytes@.len() >= MBR_SIZE && bytes@[510] == 0x55 && bytes@[511] == 0xAA ==> (r matches Ok(
                m,
            ) && m@ == Seq::new(MAX_ENTRIES as nat, |i: int| spec_entry(bytes@, i))),
    {
        if bytes.len() < MBR_SIZE {
            return Err(MbrError::BufferWrongSizeError { expected: MBR_SIZE, actual: bytes.len() });
        }
        if !(bytes[510] == 0x55 && bytes[511] == 0xAA) {
            return Err(MbrError::InvalidMBRSuffix { first: bytes[510], second: bytes[511] });
        }
        let mut entries: Vec<PartitionTableEntry> = Vec::new();
        let mut idx: usize = 0;
        while idx < MAX_ENTRIES
            invariant
                idx <= MAX_ENTRIES,
                bytes@.len() >= MBR_SIZE,
                entries@ =~= Seq::new(idx as nat, |i: int| spec_entry(bytes@, i)),
            decreases MAX_ENTRIES - idx,
        {
            let off = TABLE_OFFSET + idx * ENTRY_SIZE;
            let entry = PartitionTableEntry {
                status: bytes[off],
                partition_type: PartitionType::from_mbr_tag_byte(bytes[off + 4]),
                logical_block_address: read_le_u32(bytes, off + 8),
                sector_count: read_le_u32(bytes, off + 12),
            };
            entries.push(entry);
            idx = idx + 1;
        }
        Ok(MasterBootRecord { entries })
    }

    /// The four partition table entries, in table order.
    pub fn partition_table_entries(&self) -> (r: &Vec<PartitionTableEntry>)
        ensures
            r@ == self@,
    {
        &self.entries
    }
}

} // verus!
