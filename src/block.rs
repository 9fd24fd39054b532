use vstd::prelude::*;

use crate::error::IoErrorKind;

verus! {

/// One command issued to a block device, with the block number it addressed.
#[derive(Clone, Copy, Debug, PartialEq, Eq, Structural)]
pub enum BlockOp {
    Read(u64),
    Write(u64),
}

/// The bytes of block `lba` of a device holding `contents`, or nothing when
/// the block lies past the end of the device.
pub open spec fn block_bytes(contents: Seq<u8>, bs: nat, lba: nat) -> Seq<u8> {
    if (lba + 1) * bs <= contents.len() {
        contents.subrange((lba * bs) as int, ((lba + 1) * bs) as int)
    } else {
        Seq::empty()
    }
}

/// `contents` with block `lba` replaced by `data`.
pub open spec fn with_block(contents: Seq<u8>, bs: nat, lba: nat, data: Seq<u8>) -> Seq<u8> {
    Seq::new(
        contents.len(),
        |i: int|
            if lba * bs <= i < (lba + 1) * bs {
                data[i - lba * bs]
            } else {
                contents[i]
            },
    )
}

/// A device that reads and writes whole blocks, such as a SCSI disk.
///
/// Its state is modelled by the bytes it holds, its block size, and the
/// sequence of block commands that have been issued to it.
pub trait BlockDevice {
    spec fn contents(&self) -> Seq<u8>;

    spec fn spec_block_size(&self) -> nat;

    spec fn log(&self) -> Seq<BlockOp>;

    fn block_size(&self) -> (r: u64)
        ensures
            r as nat == self.spec_block_size(),
    ;

    /// The number of whole blocks the device holds.
    fn block_count(&self) -> (r: u64)
        ensures
            self.spec_block_size() > 0 ==> r as nat == self.contents().len() / self.spec_block_size(),
    ;

    /// Reads block `lba`; a block past the end of the device reads as empty.
    fn read_block(&mut self, lba: u64) -> (r: Result<Vec<u8>, IoErrorKind>)
        ensures
            final(self).contents() == old(self).contents(),
            final(self).spec_block_size() == old(self).spec_block_size(),
            final(self).log() == old(self).log().push(BlockOp::Read(lba)),
            match r {
                Ok(v) => v@ == block_bytes(
                    old(self).contents(),
                    old(self).spec_block_size(),
                    lba as nat,
                ),
                Err(_) => true,
            },
    ;

    /// Writes `data` over block `lba`. A failed write may have changed that
    /// block, and no other.
    fn write_block(&mut self, lba: u64, data: &Vec<u8>) -> (r: Result<(), IoErrorKind>)
        requires
            data@.len() == old(self).spec_block_size(),
            (lba + 1) * old(self).spec_block_size() <= old(self).contents().len(),
        ensures
            final(self).spec_block_size() == old(self).spec_block_size(),
            final(self).log() == old(self).log().push(BlockOp::Write(lba)),
            final(self).contents().len() == old(self).contents().len(),
            forall|i: int|
                0 <= i < old(self).contents().len() && !(lba * old(self).spec_block_size() <= i
                    < (lba + 1) * old(self).spec_block_size()) ==> final(self).contents()[i]
                    == old(self).contents()[i],
            r is Ok ==> final(self).contents() == with_block(
                old(self).contents(),
                old(self).spec_block_size(),
                lba as nat,
                data@,
            ),
    ;
}

/// A block device held in memory, which records every command issued to it.
pub struct MemoryDisk {
    bytes: Vec<u8>,
    bs: u64,
    ops: Vec<BlockOp>,
}

impl MemoryDisk {
    /// A zero-filled disk of `block_count` blocks of `block_size` bytes.
    pub fn new(block_size: u64, block_count: u64) -> (r: MemoryDisk)
        requires
            block_size > 0,
            block_size * block_count <= usize::MAX,
        ensures
            r.contents() == Seq::new((block_size * block_count) as nat, |i: int| 0u8),
            r.spec_block_size() == block_size,
            r.log() == Seq::<BlockOp>::empty(),
    {
        let total = (block_size * block_count) as usize;
        let mut bytes: Vec<u8> = Vec::new();
        while bytes.len() < total
            invariant
                bytes.len() <= total,
                forall|i: int| 0 <= i < bytes.len() ==> bytes@[i] == 0u8,
            decreases total - bytes.len(),
        {
            bytes.push(0u8);
        }
        proof {
            assert(bytes@ =~= Seq::new((block_size * block_count) as nat, |i: int| 0u8));
        }
        MemoryDisk { bytes, bs: block_size, ops: Vec::new() }
    }

    /// A disk holding `bytes`, whose length is a whole number of blocks.
    pub fn from_bytes(block_size: u64, bytes: Vec<u8>) -> (r: MemoryDisk)
        requires
            block_size > 0,
            bytes@.len() % (block_size as nat) == 0,
        ensures
            r.contents() == bytes@,
            r.spec_block_size() == block_size,
            r.log() == Seq::<BlockOp>::empty(),
    {
        MemoryDisk { bytes, bs: block_size, ops: Vec::new() }
    }

    /// The bytes the disk holds.
    pub fn bytes(&self) -> (r: &Vec<u8>)
        ensures
            r@ == self.contents(),
    {
        &self.bytes
    }

    /// The commands issued to the disk so far, oldest first.
    pub fn ops(&self) -> (r: &Vec<BlockOp>)
        ensures
            r@ == self.log(),
    {
        &self.ops
    }
}

impl BlockDevice for MemoryDisk {
    closed spec fn contents(&self) -> Seq<u8> {
        self.bytes@
    }

    closed spec fn spec_block_size(&self) -> nat {
        self.bs as nat
    }

    closed spec fn log(&self) -> Seq<BlockOp> {
        self.ops@
    }

    fn block_size(&self) -> (r: u64) {
        self.bs
    }

    fn block_count(&self) -> (r: u64) {
        if self.bs == 0 {
            0
        } else {
            (self.bytes.len() as u64) / self.bs
        }
    }

    fn read_block(&mut self, lba: u64) -> (r: Result<Vec<u8>, IoErrorKind>) {
        self.ops.push(BlockOp::Read(lba));
        let len = self.bytes.len();
        let bs = self.bs;
        let mut out: Vec<u8> = Vec::new();
        if bs == 0 || lba >= (len as u64) / bs {
            proof {
                if bs > 0 {
                    assert((lba + 1) * bs > len) by (nonlinear_arith)
                        requires
                            bs > 0,
                            lba >= len as int / bs as int,
                    ;
                }
            }
            return Ok(out);
        }
        proof {
            assert((lba + 1) * bs <= len) by (nonlinear_arith)
                requires
                    bs > 0,
                    lba < len as int / bs as int,
            ;
            assert(lba * bs <= (lba + 1) * bs) by (nonlinear_arith);
        }
        let start = (lba * bs) as usize;
        let end = ((lba + 1) * bs) as usize;
        let mut i: usize = start;
        while i < end
            invariant
                start <= i <= end,
                end <= self.bytes@.len(),
                out@ =~= self.bytes@.subrange(start as int, i as int),
            decreases end - i,
        {
            out.push(self.bytes[i]);
            i = i + 1;
        }
        Ok(out)
    }

    fn write_block(&mut self, lba: u64, data: &Vec<u8>) -> (r: Result<(), IoErrorKind>) {
        self.ops.push(BlockOp::Write(lba));
        let bs = self.bs;
        let n = self.bytes.len();
        proof {
            assert((lba + 1) * bs <= n);
            assert(lba * bs + bs <= n) by (nonlinear_arith)
                requires
                    (lba + 1) * bs <= n,
            ;
        }
        let start = (lba * bs) as usize;
        let ghost old_bytes = self.bytes@;
        let mut j: usize = 0;
        while j < data.len()
            invariant
                data@.len() == bs,
                self.bs == bs,
                self.ops@ == old(self).ops@.push(BlockOp::Write(lba)),
                (lba + 1) * bs <= self.bytes@.len(),
                start == lba * bs,
                j <= data.len(),
                self.bytes@.len() == old_bytes.len(),
                old_bytes.len() == n,
                forall|i: int|
                    0 <= i < old_bytes.len() ==> self.bytes@[i] == if start <= i < start + j {
                        data@[i - start]
                    } else {
                        old_bytes[i]
                    },
            decreases data.len() - j,
        {
            proof {
                assert(start + j < (lba + 1) * bs) by (nonlinear_arith)
                    requires
                        start == lba * bs,
                        j < bs,
                ;
                assert(start + j < self.bytes@.len());
            }
            self.bytes.set(start + j, data[j]);
            j = j + 1;
        }
        proof {
            assert((lba + 1) * bs == start + bs) by (nonlinear_arith)
                requires
                    start == lba * bs,
            ;
            assert(self.bytes@ =~= with_block(old_bytes, bs as nat, lba as nat, data@));
        }
        Ok(())
    }
}

} // verus!
