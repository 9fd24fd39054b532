use nx_fatdrive::block::MemoryDisk;
use nx_fatdrive::error::{IoErrorKind, LibnxErrMapper};
use nx_fatdrive::filesystem::check_fat_partition;
use nx_fatdrive::mbr::{MasterBootRecord, MbrError, PartitionTableEntry, PartitionType};
use nx_fatdrive::mount::{open_partition, partition_from_boot_sector, read_boot_sector};
use nx_fatdrive::offset_device::SeekFrom;

fn record_with_entry(slot: usize, status: u8, tag: u8, lba: u32, len: u32) -> Vec<u8> {
    let mut b = vec![0u8; 512];
    let off = 446 + 16 * slot;
    b[off] = status;
    b[off + 4] = tag;
    b[off + 8..off + 12].copy_from_slice(&lba.to_le_bytes());
    b[off + 12..off + 16].copy_from_slice(&len.to_le_bytes());
    b[510] = 0x55;
    b[511] = 0xAA;
    b
}

#[test]
fn parses_fat32_lba_entry() {
    let b = record_with_entry(0, 0x80, 0x0C, 2048, 204800);
    let mbr = MasterBootRecord::from_bytes(&b).unwrap();
    let e = mbr.partition_table_entries();
    assert_eq!(e.len(), 4);
    assert_eq!(
        e[0],
        PartitionTableEntry {
            status: 0x80,
            partition_type: PartitionType::Fat32(0x0C),
            logical_block_address: 2048,
            sector_count: 204800,
        }
    );
    assert_eq!(e[1].partition_type, PartitionType::Unknown(0));
    assert_eq!(e[0].start_byte(512), 2048 * 512);
}

#[test]
fn maps_type_bytes() {
    assert_eq!(PartitionType::from_mbr_tag_byte(0x01), PartitionType::Fat12(0x01));
    assert_eq!(PartitionType::from_mbr_tag_byte(0x04), PartitionType::Fat16(0x04));
    assert_eq!(PartitionType::from_mbr_tag_byte(0x06), PartitionType::Fat16(0x06));
    assert_eq!(PartitionType::from_mbr_tag_byte(0x0B), PartitionType::Fat32(0x0B));
    assert_eq!(PartitionType::from_mbr_tag_byte(0x0C), PartitionType::Fat32(0x0C));
    assert_eq!(PartitionType::from_mbr_tag_byte(0x0E), PartitionType::Fat32Lba(0x0E));
    assert_eq!(PartitionType::from_mbr_tag_byte(0x07), PartitionType::Unknown(0x07));
    assert_eq!(PartitionType::from_mbr_tag_byte(0x83).to_mbr_tag_byte(), 0x83);
}

#[test]
fn unknown_types_are_kept() {
    let b = record_with_entry(2, 0, 0x83, 7, 9);
    let mbr = MasterBootRecord::from_bytes(&b).unwrap();
    assert_eq!(mbr.partition_table_entries()[2].partition_type, PartitionType::Unknown(0x83));
    assert_eq!(mbr.partition_table_entries()[2].logical_block_address, 7);
}

#[test]
fn rejects_bad_suffix() {
    let mut b = record_with_entry(0, 0x80, 0x0C, 1, 1);
    b[511] = 0xAB;
    match MasterBootRecord::from_bytes(&b) {
        Err(e) => assert_eq!(e, MbrError::InvalidMBRSuffix { first: 0x55, second: 0xAB }),
        Ok(_) => panic!("accepted a bad suffix"),
    }
    b[510] = 0;
    b[511] = 0;
    assert!(MasterBootRecord::from_bytes(&b).is_err());
}

#[test]
fn rejects_short_buffer() {
    match MasterBootRecord::from_bytes(&[0u8; 100]) {
        Err(e) => assert_eq!(e, MbrError::BufferWrongSizeError { expected: 512, actual: 100 }),
        Ok(_) => panic!("accepted a short buffer"),
    }
}

#[test]
fn mbr_error_codes() {
    assert_eq!(
        LibnxErrMapper::map(MbrError::BufferWrongSizeError { expected: 512, actual: 3 }),
        ((0x6_0000 + 0x3000) << 8) + 0xFA
    );
    assert_eq!(
        LibnxErrMapper::map(MbrError::InvalidMBRSuffix { first: 1, second: 2 }),
        ((0x6_0000 + 0x2000 + (1 << 8) + (2 << 4)) << 8) + 0xFA
    );
}

#[test]
fn ntfs_partition_is_refused_and_fat_types_accepted() {
    let entry = |tag: u8| PartitionTableEntry {
        status: 0,
        partition_type: PartitionType::from_mbr_tag_byte(tag),
        logical_block_address: 0,
        sector_count: 0,
    };
    assert_eq!(check_fat_partition(&entry(0x07)), Err(IoErrorKind::InvalidData));
    for tag in [0x01u8, 0x04, 0x06, 0x0B, 0x0C, 0x0E] {
        assert_eq!(check_fat_partition(&entry(tag)), Ok(()), "tag {:#x}", tag);
    }
}

#[test]
fn boot_sector_is_gathered_from_small_blocks() {
    let mut bytes = record_with_entry(0, 0x80, 0x0C, 4, 12);
    bytes.resize(1024, 0);
    let mut disk = MemoryDisk::from_bytes(256, bytes.clone());
    let got = read_boot_sector(&mut disk).unwrap();
    assert_eq!(got, bytes[..512].to_vec());
    assert_eq!(disk.ops().len(), 2);
}

#[test]
fn open_partition_starts_at_entry() {
    let mut bytes = record_with_entry(1, 0x80, 0x0C, 2, 4);
    bytes.resize(512 * 6, 0);
    bytes[1024] = 0x42;
    let disk = MemoryDisk::from_bytes(512, bytes);
    let (mut dev, entry) = open_partition(disk, 1).ok().unwrap();
    assert_eq!(entry.partition_type, PartitionType::Fat32(0x0C));
    assert_eq!(entry.logical_block_address, 2);
    let mut out = [0u8; 1];
    dev.seek(SeekFrom::Start(0)).unwrap();
    dev.read(&mut out).unwrap();
    assert_eq!(out[0], 0x42);
}

#[test]
fn open_partition_refuses_bad_record_and_index() {
    let disk = MemoryDisk::new(512, 4);
    assert_eq!(
        open_partition(disk, 0).err(),
        Some(((0x6_0000 + 0x2000) << 8) + 0xFA)
    );
    let mut bytes = record_with_entry(0, 0, 0x0C, 1, 1);
    bytes.resize(1024, 0);
    assert_eq!(
        open_partition(MemoryDisk::from_bytes(512, bytes), 4).err(),
        Some(0xFFFFFE00 + 0xFA)
    );
    let tiny = MemoryDisk::new(256, 1);
    assert!(open_partition(tiny, 0).is_err());
}

#[test]
fn partition_start_from_boot_sector() {
    let b = record_with_entry(3, 0x80, 0x0E, 100, 50);
    let (entry, start) = partition_from_boot_sector(&b, 3, 4096).unwrap();
    assert_eq!(entry.partition_type, PartitionType::Fat32Lba(0x0E));
    assert_eq!(entry.sector_count, 50);
    assert_eq!(start, 100 * 4096);
    assert_eq!(partition_from_boot_sector(&b, 4, 512), Err(0xFFFFFE00 + 0xFA));
    assert_eq!(
        partition_from_boot_sector(&b[..100], 0, 512),
        Err(((0x6_0000 + 0x3000) << 8) + 0xFA)
    );
    let mut bad = b.clone();
    bad[510] = 0x12;
    assert_eq!(
        partition_from_boot_sector(&bad, 0, 512),
        Err(((0x6_0000 + 0x2000 + (0x12 << 8) + (0xAA << 4)) << 8) + 0xFA)
    );
}
