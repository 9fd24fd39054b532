use nx_fatdrive::buffers::{AlignedBuffer, BufferLayout, VecNewtype};
use nx_fatdrive::error::{
    fs_error_code, IoErrorKind, LibnxErrMapper, ScsiErrorCause, UsbTransferDirection,
    NX_FATDRIVE_ERR_DRIVE_DISCONNECTED, NX_FATDRIVE_ERR_DRIVE_NOT_FOUND,
    NX_FATDRIVE_ERR_FILE_NOT_FOUND, NX_FATDRIVE_ERR_NOT_INITIALIZED, SUCCESS,
};
use nx_fatdrive::filesystem::{entry_flags, DirEntryData, DirEntryType, FatfsSysDirIter, FsStats};
use nx_fatdrive::mount::{is_initialized_status, is_ready_status, mount_status, seek_request};
use nx_fatdrive::offset_device::SeekFrom;
use nx_fatdrive::paths::{find_stat_entry, stat_target, StatCandidate};
use nx_fatdrive::usb::{
    check_transfer_buffer, pick_drive, retrieve_iface_endpoints, ClassCodes, EndpointInfo,
    InterfaceError, TransferError,
};

#[test]
fn error_code_constants() {
    assert_eq!(NX_FATDRIVE_ERR_FILE_NOT_FOUND, ((0x4_0000 + 1) << 8) | 0xFA);
    assert_eq!(NX_FATDRIVE_ERR_DRIVE_DISCONNECTED, 0x6FA);
    assert_eq!(LibnxErrMapper::map(IoErrorKind::NotFound), ((0x2_0000 + 1) << 8) + 0xFA);
    assert_eq!(LibnxErrMapper::map(IoErrorKind::Other), ((0x2_0000 + 16) << 8) + 0xFA);
    assert_eq!(
        LibnxErrMapper::map(IoErrorKind::Unsupported),
        ((0x2_0000 + 0xFFFF) << 8) + 0xFA
    );
    assert_eq!(LibnxErrMapper::map(0x1234u32), 0x1234);
    assert_eq!(fs_error_code(IoErrorKind::NotFound), NX_FATDRIVE_ERR_FILE_NOT_FOUND);
    assert_eq!(fs_error_code(IoErrorKind::InvalidData), ((0x2_0000 + 12) << 8) + 0xFA);
    assert_eq!(
        LibnxErrMapper::map(ScsiErrorCause::UsbTransferError { direction: UsbTransferDirection::Out }),
        ((0x5_0000 + 0x3002) << 8) + 0xFA
    );
    assert_eq!(
        LibnxErrMapper::map(ScsiErrorCause::InvalidDeviceError),
        ((0x5_0000 + 0x7000) << 8) + 0xFA
    );
}

#[test]
fn stat_of_missing_path_is_file_not_found() {
    let (parent, name) = stat_target(b"/nope");
    assert_eq!(parent, Some(Vec::new()));
    assert_eq!(name, b"nope".to_vec());
    let entries = vec![
        StatCandidate { name: b"a.txt".to_vec(), len: 3, attributes: 0x20 },
        StatCandidate { name: b"dir/".to_vec(), len: 0, attributes: 0x10 },
    ];
    assert_eq!(find_stat_entry(&entries, &name), Err(NX_FATDRIVE_ERR_FILE_NOT_FOUND));
    assert_eq!(find_stat_entry(&entries, &b"dir".to_vec()), Ok((0, 0x10)));
    assert_eq!(find_stat_entry(&entries, &b"a.txt".to_vec()), Ok((3, 0x20)));
}

#[test]
fn stat_paths_are_canonicalised() {
    let (parent, name) = stat_target(b"//a//b///");
    assert_eq!(parent, Some(b"/a".to_vec()));
    assert_eq!(name, b"b".to_vec());
    let (parent, name) = stat_target(b"a///b");
    assert_eq!(parent, Some(b"a".to_vec()));
    assert_eq!(name, b"b".to_vec());
    let (parent, name) = stat_target(b"plain");
    assert_eq!(parent, None);
    assert_eq!(name, b"plain".to_vec());
}

#[test]
fn disconnect_is_detected() {
    let ready = is_initialized_status(true, true, true);
    assert_eq!(ready, SUCCESS);
    assert_eq!(is_ready_status(ready, &vec![false, true]), SUCCESS);
    assert_eq!(is_ready_status(ready, &vec![false]), NX_FATDRIVE_ERR_DRIVE_DISCONNECTED);
    assert_eq!(is_ready_status(ready, &vec![]), NX_FATDRIVE_ERR_DRIVE_DISCONNECTED);
    let absent = is_initialized_status(true, false, true);
    assert_eq!(absent, NX_FATDRIVE_ERR_NOT_INITIALIZED);
    assert_eq!(is_ready_status(absent, &vec![true]), NX_FATDRIVE_ERR_DRIVE_DISCONNECTED);
    assert_eq!(mount_status(SUCCESS, false), 1);
    assert_eq!(mount_status(NX_FATDRIVE_ERR_DRIVE_DISCONNECTED, false), 0);
    assert_eq!(mount_status(NX_FATDRIVE_ERR_DRIVE_DISCONNECTED, true), 2);
}

#[test]
fn seek_requests() {
    assert_eq!(seek_request(5, 0), Ok(SeekFrom::Start(5)));
    assert_eq!(seek_request(5, 1), Ok(SeekFrom::Current(5)));
    assert_eq!(seek_request(u64::MAX - 3, 1), Ok(SeekFrom::Current(-4)));
    assert_eq!(seek_request(u64::MAX, 2), Ok(SeekFrom::End(-1)));
    assert_eq!(seek_request(1 << 63, 1), Ok(SeekFrom::Current(i64::MIN)));
    assert_eq!(seek_request(9, 2), Ok(SeekFrom::End(9)));
    assert_eq!(seek_request(9, 3), Err((0x1FA << 8) + 0xFA));
}

#[test]
fn aligned_sizes_round_up() {
    assert_eq!(AlignedBuffer::aligned_size_raw(4095, 0x1000), Some(4096));
    assert_eq!(AlignedBuffer::aligned_size_raw(4096, 0x1000), Some(4096));
    assert_eq!(AlignedBuffer::aligned_size_raw(4097, 0x1000), Some(8192));
    assert_eq!(AlignedBuffer::aligned_size_raw(usize::MAX, 0x1000), None);
    let b = AlignedBuffer::from_layout(BufferLayout { size: 4095, align: 0x1000 }).unwrap();
    assert_eq!(b.size(), 4095);
    assert_eq!(b.alignment(), 0x1000);
    assert_eq!(b.aligned_size(), 4096);
    assert_eq!(b.layout(), BufferLayout { size: 4095, align: 0x1000 });
    assert_eq!(check_transfer_buffer(b.size(), b.alignment()), Ok(()));
}

#[test]
fn transfer_buffers_are_checked() {
    assert_eq!(check_transfer_buffer(0, 0x1000), Err(TransferError::EmptyBuffer));
    assert_eq!(
        check_transfer_buffer(512, 8),
        Err(TransferError::AlignmentError { alignment: 8 })
    );
}

#[test]
fn endpoints_are_selected_and_checked() {
    let msc = ClassCodes { class: 8, subclass: 6, protocol: 80 };
    let none = ClassCodes { class: 0, subclass: 0, protocol: 0 };
    let inp = EndpointInfo { address: 0x81, direction_in: true };
    let out = EndpointInfo { address: 0x02, direction_in: false };
    let (r, w) = retrieve_iface_endpoints(none, msc, &vec![inp], &vec![out]).unwrap();
    assert_eq!(r.0, inp);
    assert_eq!(w.0, out);
    let mixed = ClassCodes { class: 8, subclass: 0, protocol: 80 };
    assert!(retrieve_iface_endpoints(mixed, ClassCodes { class: 0, subclass: 6, protocol: 0 }, &vec![inp], &vec![out]).is_ok());
    assert_eq!(
        retrieve_iface_endpoints(none, none, &vec![inp], &vec![out]).err(),
        Some(InterfaceError::NotMassStorage)
    );
    assert_eq!(
        retrieve_iface_endpoints(msc, msc, &vec![inp], &vec![]).err(),
        Some(InterfaceError::NoOutputEndpoint)
    );
    assert_eq!(
        retrieve_iface_endpoints(msc, msc, &vec![], &vec![out]).err(),
        Some(InterfaceError::NoInputEndpoint)
    );
    assert_eq!(
        retrieve_iface_endpoints(msc, msc, &vec![out], &vec![out]).err(),
        Some(InterfaceError::BadReadEndpoint)
    );
    assert_eq!(
        retrieve_iface_endpoints(msc, msc, &vec![inp], &vec![inp]).err(),
        Some(InterfaceError::BadWriteEndpoint)
    );
}

#[test]
fn last_found_interface_is_picked() {
    assert_eq!(pick_drive(vec![1, 2, 3]), Ok(3));
    assert_eq!(pick_drive(Vec::<u8>::new()), Err(NX_FATDRIVE_ERR_DRIVE_NOT_FOUND));
}

#[test]
fn entry_flags_and_types() {
    let dir = entry_flags(true, false);
    assert_eq!(dir, (4 << 12) | 0o666);
    let ro_file = entry_flags(false, true);
    assert_eq!(ro_file, (8 << 12) | 0o444);
    let d = DirEntryData { name: "sub".to_string(), len: 0, flags: dir };
    assert_eq!(d.entry_type(), DirEntryType::Directory);
    let f = DirEntryData { name: "f".to_string(), len: 5, flags: ro_file };
    assert_eq!(f.entry_type(), DirEntryType::RegularFile);
    let odd = DirEntryData { name: "x".to_string(), len: 0, flags: 0x3000 };
    assert_eq!(odd.entry_type(), DirEntryType::Unknown);
    let fifo_bits = DirEntryData { name: "p".to_string(), len: 0, flags: 0x1000 };
    assert_eq!(fifo_bits.entry_type(), DirEntryType::Unknown);
    assert_eq!(DirEntryType::from_nibble(12), DirEntryType::Socket);
    assert_eq!(DirEntryType::SymbolicLink.to_nibble(), 10);
    assert_eq!(DirEntryType::from(4u8), DirEntryType::Directory);
    assert_eq!(DirEntryType::from(9u8), DirEntryType::Unknown);
    assert_eq!(u8::from(DirEntryType::RegularFile), 8);
    assert_eq!(u8::from(DirEntryType::Unknown), 0);
}

#[test]
fn listing_entries_carry_their_type() {
    let f = nx_fatdrive::registry::DirEntryData::from_listing("f".to_string(), true, 9);
    assert_eq!(f.type_val, nx_fatdrive::registry::DT_REG);
    assert_eq!(f.size, 9);
    let d = nx_fatdrive::registry::DirEntryData::from_listing("d".to_string(), false, 0);
    assert_eq!(d.type_val, 0x4);
}

#[test]
fn listing_cursor_walks_entries() {
    let items = vec![
        DirEntryData { name: "a".to_string(), len: 1, flags: 0 },
        DirEntryData { name: "b".to_string(), len: 2, flags: 0 },
    ];
    let mut it = FatfsSysDirIter::new(&items);
    assert_eq!(it.next().map(|e| e.name), Some("a".to_string()));
    assert_eq!(it.next().map(|e| e.len), Some(2));
    assert!(it.next().is_none());
}

#[test]
fn filesystem_sizes() {
    let s = FsStats { cluster_size: 4096, free_clusters: 10, total_clusters: 100 };
    assert_eq!(s.total_bytes(), Some(409600));
    assert_eq!(s.free_bytes(), Some(40960));
    let huge = FsStats { cluster_size: u64::MAX, free_clusters: 2, total_clusters: 2 };
    assert_eq!(huge.total_bytes(), None);
}

#[test]
fn byte_queue_capacity() {
    let mut q = VecNewtype::with_fake_capacity(2);
    assert_eq!(q.push_byte(1), Ok(1));
    assert_eq!(q.push_byte(2), Ok(1));
    assert_eq!(
        q.push_byte(3),
        Err(ScsiErrorCause::BufferTooSmallError { expected: 3, actual: 2 })
    );
    assert_eq!(q.size(), 2);
    assert_eq!(q.pull_byte(), Ok(1));
    assert_eq!(q.pull_byte(), Ok(2));
    assert_eq!(
        q.pull_byte(),
        Err(ScsiErrorCause::BufferTooSmallError { expected: 1, actual: 0 })
    );
    assert_eq!(VecNewtype::new().capacity(), 512);
    assert_eq!(VecNewtype::from_vec(vec![0; 10]).capacity(), 512);
    assert_eq!(VecNewtype::from_vec(vec![0; 300]).capacity(), 600);
}
