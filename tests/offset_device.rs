use nx_fatdrive::block::{BlockDevice, BlockOp, MemoryDisk};
use nx_fatdrive::error::IoErrorKind;
use nx_fatdrive::offset_device::{OffsetScsiDevice, SeekFrom};

fn device(blocks: u64, partition_start: u64) -> OffsetScsiDevice<MemoryDisk> {
    OffsetScsiDevice::new(MemoryDisk::new(512, blocks), partition_start)
}

fn ops(dev: &OffsetScsiDevice<MemoryDisk>) -> Vec<BlockOp> {
    dev.device().ops().clone()
}

#[test]
fn write_then_read_single_byte_anywhere() {
    for &p in &[0u64, 1, 511, 512, 513, 1023, 1024, 2047] {
        let mut dev = device(4, 0);
        dev.seek(SeekFrom::Start(100)).unwrap();
        let mut scratch = [0u8; 3];
        dev.read(&mut scratch).unwrap();
        dev.seek(SeekFrom::Start(p)).unwrap();
        assert_eq!(dev.write(&[0x5A]).unwrap(), 1);
        assert_eq!(dev.seek(SeekFrom::Start(p)).unwrap(), p);
        let mut out = [0u8; 1];
        assert_eq!(dev.read(&mut out).unwrap(), 1);
        assert_eq!(out[0], 0x5A, "position {}", p);
    }
}

#[test]
fn round_trip_from_partition_start() {
    let mut dev = device(8, 512);
    let data: Vec<u8> = (0..1500u32).map(|i| (i * 7 % 251) as u8).collect();
    assert_eq!(dev.write(&data).unwrap(), 1500);
    assert_eq!(dev.partition_idx(), 1500);
    dev.seek(SeekFrom::Start(0)).unwrap();
    let mut out = vec![0u8; 1500];
    assert_eq!(dev.read(&mut out).unwrap(), 1500);
    assert_eq!(out, data);
    dev.flush().unwrap();
    assert_eq!(&dev.device().bytes()[512..2012], &data[..]);
    assert!(dev.device().bytes()[..512].iter().all(|&b| b == 0));
}

#[test]
fn rereading_without_writes_is_identical() {
    let mut disk_bytes = vec![0u8; 2048];
    for (i, b) in disk_bytes.iter_mut().enumerate() {
        *b = (i % 256) as u8;
    }
    let mut dev = OffsetScsiDevice::new(MemoryDisk::from_bytes(512, disk_bytes), 0);
    dev.seek(SeekFrom::Start(300)).unwrap();
    let mut first = [0u8; 700];
    assert_eq!(dev.read(&mut first).unwrap(), 700);
    dev.seek(SeekFrom::Start(300)).unwrap();
    let mut second = [0u8; 700];
    assert_eq!(dev.read(&mut second).unwrap(), 700);
    assert_eq!(first.to_vec(), second.to_vec());
    assert_eq!(first[0], (300 % 256) as u8);
}

#[test]
fn flush_twice_writes_once() {
    let mut dev = device(4, 0);
    dev.write(&[1, 2, 3]).unwrap();
    assert_eq!(ops(&dev), vec![BlockOp::Read(0)]);
    dev.flush().unwrap();
    dev.flush().unwrap();
    assert_eq!(ops(&dev), vec![BlockOp::Read(0), BlockOp::Write(0)]);
    assert_eq!(&dev.device().bytes()[..3], &[1, 2, 3]);
}

#[test]
fn flush_of_clean_cache_writes_nothing() {
    let mut dev = device(4, 0);
    let mut out = [0u8; 4];
    dev.read(&mut out).unwrap();
    dev.flush().unwrap();
    assert_eq!(ops(&dev), vec![BlockOp::Read(0)]);
}

#[test]
fn rewriting_equal_bytes_leaves_block_clean() {
    let mut dev = device(4, 0);
    dev.write(&[0, 0, 0]).unwrap();
    dev.flush().unwrap();
    assert_eq!(ops(&dev), vec![BlockOp::Read(0)]);
}

#[test]
fn only_one_dirty_block_is_outstanding() {
    let mut dev = device(4, 0);
    dev.write(&[9]).unwrap();
    dev.seek(SeekFrom::Start(1024)).unwrap();
    dev.write(&[8]).unwrap();
    assert_eq!(
        ops(&dev),
        vec![BlockOp::Read(0), BlockOp::Write(0), BlockOp::Read(2)]
    );
    assert_eq!(dev.device().bytes()[0], 9);
    assert_eq!(dev.device().bytes()[1024], 0);
    dev.flush().unwrap();
    assert_eq!(dev.device().bytes()[1024], 8);
}

#[test]
fn read_across_one_boundary_loads_one_more_block() {
    let mut dev = device(4, 0);
    dev.seek(SeekFrom::Start(500)).unwrap();
    let mut one = [0u8; 1];
    dev.read(&mut one).unwrap();
    assert_eq!(ops(&dev), vec![BlockOp::Read(0)]);
    let mut span = [0u8; 20];
    assert_eq!(dev.read(&mut span).unwrap(), 20);
    assert_eq!(ops(&dev), vec![BlockOp::Read(0), BlockOp::Read(1)]);
}

#[test]
fn write_across_one_boundary_writes_back_once() {
    let mut dev = device(4, 0);
    dev.seek(SeekFrom::Start(500)).unwrap();
    dev.write(&[7; 20]).unwrap();
    assert_eq!(
        ops(&dev),
        vec![BlockOp::Read(0), BlockOp::Write(0), BlockOp::Read(1)]
    );
}

#[test]
fn block_crossing_write_at_510() {
    let mut dev = device(8, 512);
    assert_eq!(dev.seek(SeekFrom::Start(510)).unwrap(), 510);
    assert_eq!(dev.write(&[0xAA, 0xBB, 0xCC, 0xDD]).unwrap(), 4);
    assert_eq!(
        ops(&dev),
        vec![BlockOp::Read(1), BlockOp::Write(1), BlockOp::Read(2)]
    );
    assert_eq!(&dev.device().bytes()[1022..1024], &[0xAA, 0xBB]);
    assert_eq!(&dev.device().bytes()[1024..1026], &[0, 0]);
    dev.flush().unwrap();
    assert_eq!(
        ops(&dev),
        vec![
            BlockOp::Read(1),
            BlockOp::Write(1),
            BlockOp::Read(2),
            BlockOp::Write(2)
        ]
    );
    assert_eq!(&dev.device().bytes()[1024..1026], &[0xCC, 0xDD]);
}

#[test]
fn reads_past_the_end_are_short_then_empty() {
    let mut dev = device(2, 0);
    dev.seek(SeekFrom::Start(1000)).unwrap();
    let mut out = [0xEEu8; 100];
    assert_eq!(dev.read(&mut out).unwrap(), 24);
    assert_eq!(out[24], 0xEE);
    assert_eq!(dev.read(&mut out).unwrap(), 0);
    assert_eq!(dev.partition_idx(), 1024);
}

#[test]
fn reads_at_the_end_issue_no_commands() {
    let mut dev = device(2, 0);
    dev.seek(SeekFrom::Start(1024)).unwrap();
    let mut out = [0u8; 8];
    assert_eq!(dev.read(&mut out).unwrap(), 0);
    dev.seek(SeekFrom::Start(5000)).unwrap();
    assert_eq!(dev.read(&mut out).unwrap(), 0);
    assert_eq!(dev.write(&[1]).unwrap(), 0);
    assert_eq!(ops(&dev), vec![]);
}

#[test]
fn transfers_inside_the_cached_block_issue_no_commands() {
    let mut dev = device(4, 0);
    dev.seek(SeekFrom::Start(600)).unwrap();
    dev.write(&[4, 5]).unwrap();
    assert_eq!(ops(&dev), vec![BlockOp::Read(1)]);
    dev.seek(SeekFrom::Start(520)).unwrap();
    let mut out = [0u8; 90];
    assert_eq!(dev.read(&mut out).unwrap(), 90);
    assert_eq!(&out[80..82], &[4, 5]);
    dev.write(&[6; 10]).unwrap();
    assert_eq!(ops(&dev), vec![BlockOp::Read(1)]);
}

#[test]
fn disk_block_count() {
    assert_eq!(MemoryDisk::new(512, 7).block_count(), 7);
    assert_eq!(MemoryDisk::from_bytes(256, vec![0; 1024]).block_count(), 4);
}

#[test]
fn writes_past_the_end_are_short() {
    let mut dev = device(2, 512);
    dev.seek(SeekFrom::Start(510)).unwrap();
    assert_eq!(dev.write(&[1, 2, 3, 4]).unwrap(), 2);
    assert_eq!(dev.write(&[5]).unwrap(), 0);
}

#[test]
fn seek_variants() {
    let mut dev = device(2, 0);
    assert_eq!(dev.seek(SeekFrom::Start(40)).unwrap(), 40);
    assert_eq!(dev.seek(SeekFrom::Current(-15)).unwrap(), 25);
    assert_eq!(dev.seek(SeekFrom::Current(5)).unwrap(), 30);
    assert_eq!(dev.seek(SeekFrom::Current(-31)), Err(IoErrorKind::InvalidInput));
    assert_eq!(dev.partition_idx(), 30);
    assert_eq!(dev.seek(SeekFrom::End(0)), Err(IoErrorKind::Unsupported));
    dev.consume(2);
    assert_eq!(dev.partition_idx(), 32);
}

#[test]
fn seeks_alone_issue_no_commands() {
    let mut dev = device(4, 0);
    dev.write(&[3]).unwrap();
    dev.seek(SeekFrom::Start(1500)).unwrap();
    dev.seek(SeekFrom::Start(10)).unwrap();
    assert_eq!(ops(&dev), vec![BlockOp::Read(0)]);
    let mut out = [0u8; 1];
    dev.seek(SeekFrom::Start(0)).unwrap();
    dev.read(&mut out).unwrap();
    assert_eq!(out[0], 3);
    assert_eq!(ops(&dev), vec![BlockOp::Read(0)]);
}

#[test]
fn write_read_same_block_hello_world() {
    let mut dev = device(4, 0);
    assert_eq!(dev.write(b"hello world").unwrap(), 11);
    dev.seek(SeekFrom::Start(0)).unwrap();
    let mut out = [0u8; 11];
    assert_eq!(dev.read(&mut out).unwrap(), 11);
    assert_eq!(&out, b"hello world");
}
