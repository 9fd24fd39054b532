use std::io::{self, Read, Seek, Write};

use nx_fatdrive::block::MemoryDisk;
use nx_fatdrive::error::NX_FATDRIVE_ERR_FILE_NOT_FOUND;
use nx_fatdrive::offset_device::{OffsetScsiDevice, SeekFrom};
use nx_fatdrive::paths::{find_stat_entry, stat_target, StatCandidate};
use nx_fatdrive::registry::IdStore;

struct Volume(OffsetScsiDevice<MemoryDisk>);

fn io_err(_: nx_fatdrive::error::IoErrorKind) -> io::Error {
    io::Error::from(io::ErrorKind::Other)
}

impl Read for Volume {
    fn read(&mut self, buf: &mut [u8]) -> io::Result<usize> {
        self.0.read(buf).map_err(io_err)
    }
}

impl Write for Volume {
    fn write(&mut self, buf: &[u8]) -> io::Result<usize> {
        self.0.write(buf).map_err(io_err)
    }
    fn flush(&mut self) -> io::Result<()> {
        self.0.flush().map_err(io_err)
    }
}

impl Seek for Volume {
    fn seek(&mut self, pos: io::SeekFrom) -> io::Result<u64> {
        let p = match pos {
            io::SeekFrom::Start(n) => SeekFrom::Start(n),
            io::SeekFrom::Current(d) => SeekFrom::Current(d),
            io::SeekFrom::End(d) => SeekFrom::End(d),
        };
        self.0.seek(p).map_err(io_err)
    }
}

const SECTORS: u32 = 4096;

fn formatted() -> fatfs::FileSystem<Volume> {
    let disk = MemoryDisk::new(512, SECTORS as u64 + 1);
    let mut vol = Volume(OffsetScsiDevice::new(disk, 512));
    fatfs::format_volume(
        &mut vol,
        fatfs::FormatVolumeOptions::new().total_sectors(SECTORS),
    )
    .unwrap();
    vol.seek(io::SeekFrom::Start(0)).unwrap();
    fatfs::FileSystem::new(vol, fatfs::FsOptions::new()).unwrap()
}

#[test]
fn fat_file_write_seek_read() {
    let fs = formatted();
    let root = fs.root_dir();
    let mut store: IdStore<fatfs::File<Volume>, fatfs::Dir<Volume>> = IdStore::new();
    let id = store
        .open_file("/a.txt", |p| root.create_file(&p).map_err(|_| 1))
        .unwrap();
    let again = store.open_file("/a.txt", |_| Err(2)).unwrap();
    assert_eq!(id, again);
    let f = store.get_file_handle(id).unwrap();
    assert_eq!(f.write(b"hello world").unwrap(), 11);
    f.seek(io::SeekFrom::Start(0)).unwrap();
    let mut out = [0u8; 11];
    assert_eq!(f.read(&mut out).unwrap(), 11);
    assert_eq!(&out, b"hello world");
    let mut closed = store.close_file(id).unwrap();
    closed.flush().unwrap();
}

#[test]
fn fat_stat_nonexistent_path() {
    let fs = formatted();
    let root = fs.root_dir();
    root.create_file("present.txt").unwrap();
    let (parent, name) = stat_target(b"/nope");
    assert_eq!(parent, Some(Vec::new()));
    let entries: Vec<StatCandidate> = root
        .iter()
        .map(|e| e.unwrap())
        .map(|e| StatCandidate {
            name: e.file_name().into_bytes(),
            len: e.len(),
            attributes: e.attributes().bits() as u64,
        })
        .collect();
    assert_eq!(find_stat_entry(&entries, &name), Err(NX_FATDRIVE_ERR_FILE_NOT_FOUND));
    assert!(find_stat_entry(&entries, &b"present.txt".to_vec()).is_ok());
}
