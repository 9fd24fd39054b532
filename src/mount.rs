use vstd::prelude::*;

use crate::block::{block_bytes, BlockDevice};
use crate::error::{
    namespaced, NX_FATDRIVE_ERR_MBR_PREFIX,
    IoErrorKind, LibnxErrMapper, NX_FATDRIVE_ERR_DRIVE_DISCONNECTED, NX_FATDRIVE_ERR_MODULE,
    NX_FATDRIVE_ERR_NOT_IMPLEMENTED, NX_FATDRIVE_ERR_NOT_INITIALIZED, NX_FATDRIVE_ERR_UNKNOWN,
    SUCCESS,
};
use crate::mbr::{le_u32, spec_entry, MasterBootRecord, PartitionTableEntry, MAX_ENTRIES, MBR_SIZE};
use crate::offset_device::{OffsetScsiDevice, SeekFrom};

verus! {

/// Reads whole blocks from the start of `dev` until at least a master boot
/// record's worth of bytes has arrived.
pub fn read_boot_sector<D: BlockDevice>(dev: &mut D) -> (r: Result<Vec<u8>, IoErrorKind>)
    requires
        old(dev).spec_block_size() > 0,
        old(dev).contents().len() % old(dev).spec_block_size() == 0,
    ensures
        final(dev).contents() == old(dev).contents(),
        final(dev).spec_block_size() == old(dev).spec_block_size(),
        old(dev).contents().len() < MBR_SIZE ==> r is Err,
        match r {
            Ok(v) => {
                &&& MBR_SIZE <= v@.len() <= old(dev).contents().len()
                &&& v@ == old(dev).contents().subrange(0, v@.len() as int)
            },
            Err(_) => true,
        },
{
    let ghost contents = dev.contents();
    let ghost bs = dev.spec_block_size();
    let mut buf: Vec<u8> = Vec::new();
    let mut lba: u64 = 0;
    while buf.len() < MBR_SIZE
        invariant
            dev.contents() == contents,
            dev.spec_block_size() == bs,
            contents == old(dev).contents(),
            bs == old(dev).spec_block_size(),
            bs > 0,
            buf@.len() == lba * bs,
            buf@.len() <= contents.len(),
            buf@ == contents.subrange(0, buf@.len() as int),
            lba <= MBR_SIZE,
        decreases MBR_SIZE - lba,
    {
        let data = dev.read_block(lba)?;
        if data.len() == 0 {
            return Err(IoErrorKind::UnexpectedEof);
        }
        proof {
            assert((lba + 1) * bs == lba * bs + bs) by (nonlinear_arith);
            assert(lba * bs >= lba) by (nonlinear_arith)
                requires
                    bs > 0,
            ;
        }
        let ghost before = buf@;
        let mut j: usize = 0;
        while j < data.len()
            invariant
                j <= data@.len(),
                data@ == block_bytes(contents, bs, lba as nat),
                data@.len() == bs,
                (lba + 1) * bs <= contents.len(),
                before.len() == lba * bs,
                before == contents.subrange(0, before.len() as int),
                buf@ == before + data@.subrange(0, j as int),
            decreases data.len() - j,
        {
            buf.push(data[j]);
            j = j + 1;
            proof {
                assert(buf@ =~= before + data@.subrange(0, j as int));
            }
        }
        proof {
            assert(data@.subrange(0, j as int) =~= data@);
            assert(buf@ =~= contents.subrange(0, ((lba + 1) * bs) as int));
            assert(lba < MBR_SIZE);
        }
        lba = lba + 1;
    }
    Ok(buf)
}

/// The entry of partition `idx` in the boot sector `bytes`, and the byte on
/// the device where that partition starts for blocks of `block_size` bytes.
pub fn partition_from_boot_sector(bytes: &[u8], idx: usize, block_size: u32) -> (r: Result<
    (PartitionTableEntry, u64),
    u32,
>)
    ensures
        bytes@.len() < MBR_SIZE ==> r == Err::<(PartitionTableEntry, u64), u32>(
            namespaced(NX_FATDRIVE_ERR_MBR_PREFIX, 0x3000),
        ),
        bytes@.len() >= MBR_SIZE && !(bytes@[510] == 0x55 && bytes@[511] == 0xAA) ==> r == Err::<
            (PartitionTableEntry, u64),
            u32,
        >(
            namespaced(
                NX_FATDRIVE_ERR_MBR_PREFIX,
                (0x2000 + bytes@[510] as nat * 256 + bytes@[511] as nat * 16) as u32,
            ),
        ),
        bytes@.len() >= MBR_SIZE && bytes@[510] == 0x55 && bytes@[511] == 0xAA && idx >= MAX_ENTRIES
            ==> r == Err::<(PartitionTableEntry, u64), u32>(NX_FATDRIVE_ERR_UNKNOWN),
        bytes@.len() >= MBR_SIZE && bytes@[510] == 0x55 && bytes@[511] == 0xAA && idx < MAX_ENTRIES
            ==> r == Ok::<(PartitionTableEntry, u64), u32>(
            (
                spec_entry(bytes@, idx as int),
                (le_u32(bytes@, 446 + 16 * idx + 8) as nat * block_size as nat) as u64,
            ),
        ),
{
    let mbr = match MasterBootRecord::from_bytes(bytes) {
        Ok(m) => m,
        Err(e) => {
            return Err(LibnxErrMapper::map(e));
        },
    };
    if idx >= MAX_ENTRIES {
        return Err(NX_FATDRIVE_ERR_UNKNOWN);
    }
    let entries = mbr.partition_table_entries();
    let ent = entries[idx];
    let start = ent.start_byte(block_size);
    Ok((ent, start))
}

/// Opens partition `idx` of the master boot record at the start of `dev` as a
/// byte stream starting at the partition's first byte.
pub fn open_partition<D: BlockDevice>(dev: D, idx: usize) -> (r: Result<
    (OffsetScsiDevice<D>, PartitionTableEntry),
    u32,
>)
    requires
        dev.spec_block_size() > 0,
        dev.spec_block_size() <= u32::MAX,
        dev.contents().len() % dev.spec_block_size() == 0,
        dev.contents().len() <= u64::MAX,
    ensures
        dev.contents().len() < MBR_SIZE ==> r is Err,
        dev.contents().len() >= MBR_SIZE && !(dev.contents()[510] == 0x55 && dev.contents()[511]
            == 0xAA) ==> r is Err,
        idx >= MAX_ENTRIES ==> r is Err,
        match r {
            Ok((d, entry)) => {
                &&& entry == spec_entry(dev.contents(), idx as int)
                &&& d.wf()
                &&& d.view() == dev.contents()
                &&& d.cursor() == 0
                &&& !d.is_dirty()
                &&& d.start() == le_u32(dev.contents(), 446 + 16 * idx + 8) as nat
                    * dev.spec_block_size()
            },
            Err(_) => true,
        },
{
    let ghost c0 = dev.contents();
    let mut dev = dev;
    let bytes = match read_boot_sector(&mut dev) {
        Ok(b) => b,
        Err(e) => {
            return Err(LibnxErrMapper::map(e));
        },
    };
    let bs = dev.block_size();
    let (ent, raw_offset) = partition_from_boot_sector(bytes.as_slice(), idx, bs as u32)?;
    proof {
        assert(bytes@ == c0.subrange(0, bytes@.len() as int));
        assert(forall|k: int| 0 <= k < MBR_SIZE ==> bytes@[k] == c0[k]);
        assert(spec_entry(bytes@, idx as int) == spec_entry(c0, idx as int));
        assert(le_u32(bytes@, 446 + 16 * idx + 8) == le_u32(c0, 446 + 16 * idx + 8));
        let lba = le_u32(c0, 446 + 16 * idx + 8) as nat;
        assert(lba * (bs as nat) <= 0xFFFF_FFFFu64 * 0xFFFF_FFFFu64) by (nonlinear_arith)
            requires
                lba <= 0xFFFF_FFFF,
                bs <= 0xFFFF_FFFF,
        ;
    }
    Ok((OffsetScsiDevice::new(dev, raw_offset), ent))
}

/// Whether all three parts of a mount are present: the USB context, the file
/// system and the handle registry.
pub fn is_initialized_status(usb_present: bool, fs_present: bool, registry_present: bool) -> (r:
    u32)
    ensures
        r == if usb_present && fs_present && registry_present {
            SUCCESS
        } else {
            NX_FATDRIVE_ERR_NOT_INITIALIZED
        },
{
    if usb_present && fs_present && registry_present {
        SUCCESS
    } else {
        NX_FATDRIVE_ERR_NOT_INITIALIZED
    }
}

/// Whether a mounted drive is still attached: `initialized_status` is the
/// status of the mount, and `acquired` says, for each interface the host
/// still holds, whether it is the one the mount acquired. Anything but a
/// mount whose interface is still held counts as disconnected.
pub fn is_ready_status(initialized_status: u32, acquired: &Vec<bool>) -> (r: u32)
    ensures
        r == if initialized_status == SUCCESS && acquired@.contains(true) {
            SUCCESS
        } else {
            NX_FATDRIVE_ERR_DRIVE_DISCONNECTED
        },
{
    if initialized_status != SUCCESS {
        return NX_FATDRIVE_ERR_DRIVE_DISCONNECTED;
    }
    let mut i: usize = 0;
    while i < acquired.len()
        invariant
            initialized_status == SUCCESS,
            i <= acquired@.len(),
            forall|k: int| 0 <= k < i ==> !acquired@[k],
        decreases acquired.len() - i,
    {
        if acquired[i] {
            return SUCCESS;
        }
        i = i + 1;
    }
    NX_FATDRIVE_ERR_DRIVE_DISCONNECTED
}

/// The mount status reported to callers: `1` (mounted) when the drive is
/// ready, else `2` (unsupported file system) when the last mount failed on
/// the partition's type, else `0` (unmounted).
pub fn mount_status(ready_status: u32, unsupported_fs: bool) -> (r: u32)
    ensures
        r == if ready_status == SUCCESS {
            1u32
        } else if unsupported_fs {
            2u32
        } else {
            0u32
        },
{
    if ready_status == SUCCESS {
        1
    } else if unsupported_fs {
        2
    } else {
        0
    }
}

/// The signed distance a seek request's 64-bit position stands for: the
/// same bits read as a two's complement number.
pub open spec fn spec_relative(pos: u64) -> i64 {
    if pos > i64::MAX {
        (pos - 0x1_0000_0000_0000_0000int) as i64
    } else {
        pos as i64
    }
}

/// The seek that a request with `whence` 0 (start), 1 (current) or 2 (end)
/// asks for; any other `whence` is refused.
pub fn seek_request(pos: u64, whence: u64) -> (r: Result<SeekFrom, u32>)
    ensures
        whence == 0 ==> r == Ok::<SeekFrom, u32>(SeekFrom::Start(pos)),
        whence == 1 ==> r == Ok::<SeekFrom, u32>(SeekFrom::Current(spec_relative(pos))),
        whence == 2 ==> r == Ok::<SeekFrom, u32>(SeekFrom::End(spec_relative(pos))),
        whence > 2 ==> r == Err::<SeekFrom, u32>(
            (NX_FATDRIVE_ERR_NOT_IMPLEMENTED * 256 + NX_FATDRIVE_ERR_MODULE) as u32,
        ),
{
    let rel: i64 = if pos > i64::MAX as u64 {
        -((u64::MAX - pos) as i64) - 1
    } else {
        pos as i64
    };
    if whence == 0 {
        Ok(SeekFrom::Start(pos))
    } else if whence == 1 {
        Ok(SeekFrom::Current(rel))
    } else if whence == 2 {
        Ok(SeekFrom::End(rel))
    } else {
        Err(NX_FATDRIVE_ERR_NOT_IMPLEMENTED * 256 + NX_FATDRIVE_ERR_MODULE)
    }
}

} // verus!
