use vstd::prelude::*;

use crate::block::{block_bytes, with_block, BlockDevice, BlockOp};
use crate::error::IoErrorKind;
use vstd::arithmetic::div_mod::{lemma_div_is_ordered, lemma_fundamental_div_mod};

verus! {

/// Where a seek is measured from.
#[derive(Clone, Copy, Debug, PartialEq, Eq, Structural)]
pub enum SeekFrom {
    Start(u64),
    End(i64),
    Current(i64),
}

/// How many bytes a transfer of `k` bytes at byte `pos` of a device of `len`
/// bytes moves: the transfer stops at the end of the device.
pub open spec fn transfer_count(len: nat, pos: nat, k: nat) -> nat {
    if pos >= len {
        0
    } else if pos + k <= len {
        k
    } else {
        (len - pos) as nat
    }
}

/// The bytes that a read of `k` bytes at byte `pos` of `view` returns.
pub open spec fn read_spec(view: Seq<u8>, pos: nat, k: nat) -> Seq<u8> {
    if pos >= view.len() {
        Seq::empty()
    } else {
        view.subrange(pos as int, (pos + transfer_count(view.len(), pos, k)) as int)
    }
}

/// `view` after writing `data` at byte `pos`; bytes past the end are dropped.
pub open spec fn write_spec(view: Seq<u8>, pos: nat, data: Seq<u8>) -> Seq<u8> {
    let n = transfer_count(view.len(), pos, data.len());
    Seq::new(view.len(), |i: int| if pos <= i < pos + n { data[i - pos] } else { view[i] })
}

/// What the device holds as seen through a cache that holds `cached` for
/// block `lba` (an empty `cached` holds nothing).
pub open spec fn overlay(contents: Seq<u8>, bs: nat, lba: nat, cached: Seq<u8>) -> Seq<u8> {
    if cached.len() == 0 {
        contents
    } else {
        with_block(contents, bs, lba, cached)
    }
}

/// The block commands that loading block `want` issues when the cache holds
/// block `cached` (if any), dirty or not.
pub open spec fn fill_ops(cached: Option<nat>, dirty: bool, want: nat) -> Seq<BlockOp> {
    match cached {
        Some(b) => if b == want {
            Seq::empty()
        } else if dirty {
            seq![BlockOp::Write(b as u64), BlockOp::Read(want as u64)]
        } else {
            seq![BlockOp::Read(want as u64)]
        },
        None => seq![BlockOp::Read(want as u64)],
    }
}

/// Whether a transfer of `k` bytes at byte `pos` runs from one block into the
/// next and no further.
pub open spec fn crosses_one_boundary(pos: nat, k: nat, bs: nat) -> bool {
    k > 0 && (pos + k - 1) as nat / bs == pos / bs + 1
}

/// Whether a transfer of `k` bytes at byte `pos` lies on a device of `len`
/// bytes and touches at most two blocks: the one holding `pos` and the next.
pub open spec fn within_two_blocks(pos: nat, k: nat, bs: nat, len: nat) -> bool {
    k > 0 && pos + k <= len && (pos + k - 1) as nat / bs <= pos / bs + 1
}

/// The block commands a transfer issues that starts in block `first` with the
/// cache holding `cached` (dirty or not), and that runs on into the next
/// block when `crosses`; `dirty_at_cross` says whether block `first` has
/// changed by the time the transfer leaves it.
pub open spec fn span_ops(
    cached: Option<nat>,
    dirty: bool,
    first: nat,
    crosses: bool,
    dirty_at_cross: bool,
) -> Seq<BlockOp> {
    fill_ops(cached, dirty, first) + if crosses {
        fill_ops(Some(first), dirty_at_cross, first + 1)
    } else {
        Seq::empty()
    }
}

/// Whether writing `data` at byte `pos` of `view` changes one of the bytes
/// that `data[lo..hi]` lands on.
pub open spec fn changes(view: Seq<u8>, pos: nat, data: Seq<u8>, lo: int, hi: int) -> bool {
    exists|j: int| lo <= j < hi && 0 <= j < data.len() && #[trigger] data[j] != view[pos + j]
}

proof fn lemma_changes_step(view: Seq<u8>, pos: nat, data: Seq<u8>, lo: int, hi: int)
    requires
        0 <= lo <= hi < data.len(),
    ensures
        changes(view, pos, data, lo, hi + 1) == (changes(view, pos, data, lo, hi) || data[hi]
            != view[pos + hi]),
        !changes(view, pos, data, lo, lo),
{
    if changes(view, pos, data, lo, hi + 1) {
        let j = choose|j: int|
            lo <= j < hi + 1 && 0 <= j < data.len() && #[trigger] data[j] != view[pos + j];
        if j < hi {
            assert(changes(view, pos, data, lo, hi));
        }
    }
    if changes(view, pos, data, lo, hi) {
        let j = choose|j: int|
            lo <= j < hi && 0 <= j < data.len() && #[trigger] data[j] != view[pos + j];
        assert(data[j] != view[pos + j]);
    }
}

proof fn lemma_block_of(pos: nat, bs: nat, len: nat)
    requires
        bs > 0,
        len % bs == 0,
    ensures
        (pos / bs) * bs <= pos < (pos / bs + 1) * bs,
        pos == (pos / bs) * bs + pos % bs,
        pos < len ==> (pos / bs + 1) * bs <= len,
        pos >= len ==> (pos / bs + 1) * bs > len,
{
    lemma_fundamental_div_mod(pos as int, bs as int);
    lemma_fundamental_div_mod(len as int, bs as int);
    let q = pos / bs;
    let m = len / bs;
    assert((q + 1) * bs == q * bs + bs) by (nonlinear_arith);
    assert(q * bs == bs * q) by (nonlinear_arith);
    assert(m * bs == bs * m) by (nonlinear_arith);
    if pos < len {
        assert(q < m) by (nonlinear_arith)
            requires
                pos == bs * q + pos % bs,
                len == bs * m,
                pos < len,
                0 <= pos % bs,
                bs > 0,
        ;
        assert((q + 1) * bs <= m * bs) by (nonlinear_arith)
            requires
                q + 1 <= m,
                bs > 0,
        ;
    }
}

proof fn lemma_clean_block(contents: Seq<u8>, bs: nat, lba: nat)
    requires
        (lba + 1) * bs <= contents.len(),
    ensures
        with_block(contents, bs, lba, block_bytes(contents, bs, lba)) == contents,
{
    assert(lba * bs <= (lba + 1) * bs) by (nonlinear_arith);
    assert(with_block(contents, bs, lba, block_bytes(contents, bs, lba)) =~= contents);
}

/// A byte-addressed `read`/`write`/`seek` stream over a block device, starting
/// at a partition's first byte, that caches one block and writes it back only
/// when it has changed and another block is needed, or on `flush`. Dropping
/// the stream does not write the cached block back: flush it first.
pub struct OffsetScsiDevice<D: BlockDevice> {
    device: D,
    block_buffer: Vec<u8>,
    block_size: u64,
    block_count: u64,
    partition_start: u64,
    partition_idx: u64,
    loaded_block_number: u64,
    needs_flush: bool,
}

impl<D: BlockDevice> OffsetScsiDevice<D> {
    /// The device's block size is fixed and divides its length; a cached
    /// block lies on the device, and a clean one equals the device's copy.
    pub closed spec fn wf(&self) -> bool {
        let bs = self.block_size as nat;
        let contents = self.device.contents();
        &&& bs > 0
        &&& self.device.spec_block_size() == bs
        &&& contents.len() % bs == 0
        &&& self.block_count as nat * bs == contents.len()
        &&& contents.len() <= u64::MAX
        &&& (self.block_buffer@.len() == 0 || (self.block_buffer@.len() == bs && (
        self.loaded_block_number + 1) * bs <= contents.len()))
        &&& (self.needs_flush ==> self.block_buffer@.len() > 0)
        &&& (!self.needs_flush && self.block_buffer@.len() > 0 ==> self.block_buffer@
            == block_bytes(contents, bs, self.loaded_block_number as nat))
    }

    /// The bytes of the whole device as a user of the stream sees them: the
    /// device's own bytes with the cached block in place.
    pub closed spec fn view(&self) -> Seq<u8> {
        overlay(
            self.device.contents(),
            self.block_size as nat,
            self.loaded_block_number as nat,
            self.block_buffer@,
        )
    }

    /// The bytes the device itself holds.
    pub closed spec fn device_contents(&self) -> Seq<u8> {
        self.device.contents()
    }

    /// The block commands issued to the device so far.
    pub closed spec fn log(&self) -> Seq<BlockOp> {
        self.device.log()
    }

    /// The position in the partition.
    pub closed spec fn cursor(&self) -> nat {
        self.partition_idx as nat
    }

    /// The partition's first byte on the device.
    pub closed spec fn start(&self) -> nat {
        self.partition_start as nat
    }

    /// The position on the device.
    pub open spec fn position(&self) -> nat {
        self.start() + self.cursor()
    }

    pub closed spec fn spec_block_size(&self) -> nat {
        self.block_size as nat
    }

    /// The block held in the cache, if any.
    pub closed spec fn cached(&self) -> Option<nat> {
        if self.block_buffer@.len() > 0 {
            Some(self.loaded_block_number as nat)
        } else {
            None
        }
    }

    /// Whether the cached block has changed since it was loaded.
    pub closed spec fn is_dirty(&self) -> bool {
        self.needs_flush
    }

    /// Wraps `device`, with the stream at the first byte of a partition that
    /// starts at byte `partition_start`.
    pub fn new(device: D, partition_start: u64) -> (r: Self)
        requires
            device.spec_block_size() > 0,
            device.contents().len() % device.spec_block_size() == 0,
            device.contents().len() <= u64::MAX,
        ensures
            r.wf(),
            r.view() == device.contents(),
            r.device_contents() == device.contents(),
            r.log() == device.log(),
            r.cursor() == 0,
            r.start() == partition_start,
            r.spec_block_size() == device.spec_block_size(),
            r.cached() == None::<nat>,
            !r.is_dirty(),
    {
        let block_size = device.block_size();
        let block_count = device.block_count();
        proof {
            lemma_fundamental_div_mod(device.contents().len() as int, block_size as int);
            assert(block_count as nat * block_size == device.contents().len()) by (nonlinear_arith)
                requires
                    block_count == device.contents().len() as int / block_size as int,
                    device.contents().len() == block_size * (device.contents().len() as int
                        / block_size as int) + device.contents().len() as int % block_size as int,
                    device.contents().len() as int % block_size as int == 0,
            ;
        }
        OffsetScsiDevice {
            device,
            block_buffer: Vec::new(),
            block_size,
            block_count,
            partition_start,
            partition_idx: 0,
            loaded_block_number: 0,
            needs_flush: false,
        }
    }

    /// The device underneath.
    pub fn device(&self) -> (r: &D)
        ensures
            r.contents() == self.device_contents(),
            r.log() == self.log(),
    {
        &self.device
    }

    /// The position in the partition.
    pub fn partition_idx(&self) -> (r: u64)
        ensures
            r == self.cursor(),
    {
        self.partition_idx
    }

    /// The block holding the current position and the offset within it, or
    /// `None` when the position does not fit in 64 bits.
    fn current_block(&self) -> (r: Option<(u64, u64)>)
        requires
            self.wf(),
        ensures
            match r {
                Some((b, off)) => self.position() <= u64::MAX && b == self.position()
                    / self.spec_block_size() && off == self.position() % self.spec_block_size(),
                None => self.position() > u64::MAX,
            },
    {
        match self.partition_start.checked_add(self.partition_idx) {
            Some(raw) => Some((raw / self.block_size, raw % self.block_size)),
            None => None,
        }
    }

    /// Writes the cached block back to the device if it has changed. The
    /// block stays cached, and clean on success.
    pub fn flush(&mut self) -> (r: Result<(), IoErrorKind>)
        requires
            old(self).wf(),
        ensures
            final(self).wf(),
            final(self).view() == old(self).view(),
            final(self).cursor() == old(self).cursor(),
            final(self).start() == old(self).start(),
            final(self).spec_block_size() == old(self).spec_block_size(),
            final(self).cached() == old(self).cached(),
            !old(self).is_dirty() ==> r is Ok && *final(self) == *old(self),
            old(self).is_dirty() ==> final(self).log() == old(self).log().push(
                BlockOp::Write(old(self).cached().unwrap() as u64),
            ),
            r is Ok ==> !final(self).is_dirty(),
            r is Err ==> final(self).is_dirty(),
    {
        if !self.needs_flush {
            return Ok(());
        }
        let ghost old_contents = self.device.contents();
        let ghost bs = self.block_size as nat;
        let ghost lb = self.loaded_block_number as nat;
        let res = self.device.write_block(self.loaded_block_number, &self.block_buffer);
        proof {
            assert(self.view() =~= old(self).view());
        }
        match res {
            Ok(()) => {
                proof {
                    assert((lb + 1) * bs == lb * bs + bs) by (nonlinear_arith);
                    assert(self.block_buffer@ =~= block_bytes(self.device.contents(), bs, lb));
                }
                self.needs_flush = false;
                Ok(())
            },
            Err(e) => Err(e),
        }
    }

    /// Makes the cache hold the block of the current position, writing the
    /// block it held back first if that one has changed. Returns whether the
    /// position lies on the device; past the end no command is issued.
    fn fill_buf(&mut self) -> (r: Result<bool, IoErrorKind>)
        requires
            old(self).wf(),
        ensures
            final(self).wf(),
            final(self).view() == old(self).view(),
            final(self).cursor() == old(self).cursor(),
            final(self).start() == old(self).start(),
            final(self).spec_block_size() == old(self).spec_block_size(),
            old(self).position() >= old(self).view().len() ==> r == Ok::<bool, IoErrorKind>(false)
                && *final(self) == *old(self),
            old(self).position() < old(self).view().len() && old(self).cached() == Some(
                old(self).position() / old(self).spec_block_size(),
            ) ==> r == Ok::<bool, IoErrorKind>(true) && *final(self) == *old(self),
            old(self).position() < old(self).view().len() && old(self).cached() != Some(
                old(self).position() / old(self).spec_block_size(),
            ) ==> match r {
                Ok(avail) => {
                    &&& avail
                    &&& final(self).cached() == Some(
                        old(self).position() / old(self).spec_block_size(),
                    )
                    &&& !final(self).is_dirty()
                    &&& final(self).log() == old(self).log() + fill_ops(
                        old(self).cached(),
                        old(self).is_dirty(),
                        old(self).position() / old(self).spec_block_size(),
                    )
                },
                Err(_) => {
                    ||| {
                        &&& old(self).is_dirty()
                        &&& final(self).is_dirty()
                        &&& final(self).cached() == old(self).cached()
                        &&& final(self).log() == old(self).log().push(
                            BlockOp::Write(old(self).cached().unwrap() as u64),
                        )
                    }
                    ||| {
                        &&& !final(self).is_dirty()
                        &&& final(self).cached() == None::<nat>
                        &&& final(self).log() == old(self).log() + fill_ops(
                            old(self).cached(),
                            old(self).is_dirty(),
                            old(self).position() / old(self).spec_block_size(),
                        )
                    }
                },
            },
    {
        let ghost bs = self.block_size as nat;
        let ghost len = self.device.contents().len();
        proof {
            lemma_block_of(self.position(), bs, len);
        }
        let (cur, _off) = match self.current_block() {
            Some(c) => c,
            None => {
                return Ok(false);
            },
        };
        proof {
            let n = self.block_count as nat;
            if (cur + 1) * bs <= len {
                assert(cur < n) by (nonlinear_arith)
                    requires
                        (cur + 1) * bs <= len,
                        n * bs == len,
                        bs > 0,
                ;
            } else {
                assert(cur >= n) by (nonlinear_arith)
                    requires
                        (cur + 1) * bs > len,
                        n * bs == len,
                        bs > 0,
                ;
            }
        }
        if cur >= self.block_count {
            return Ok(false);
        }
        if self.block_buffer.len() > 0 && self.loaded_block_number == cur {
            return Ok(true);
        }
        let ghost log0 = self.device.log();
        if self.needs_flush {
            self.flush()?;
        }
        let ghost log1 = self.device.log();
        proof {
            if self.block_buffer@.len() > 0 {
                lemma_clean_block(
                    self.device.contents(),
                    bs,
                    self.loaded_block_number as nat,
                );
            }
        }
        self.block_buffer = Vec::new();
        let res = self.device.read_block(cur);
        proof {
            if old(self).is_dirty() {
                assert(self.device.log() =~= log0 + fill_ops(
                    old(self).cached(),
                    old(self).is_dirty(),
                    cur as nat,
                ));
            } else {
                assert(self.device.log() =~= log0 + fill_ops(
                    old(self).cached(),
                    old(self).is_dirty(),
                    cur as nat,
                ));
            }
        }
        let data = match res {
            Ok(d) => d,
            Err(e) => {
                return Err(e);
            },
        };
        proof {
            assert((cur + 1) * bs == cur * bs + bs) by (nonlinear_arith);
            lemma_clean_block(self.device.contents(), bs, cur as nat);
        }
        self.block_buffer = data;
        self.loaded_block_number = cur;
        proof {
            assert(self.view() =~= old(self).view());
        }
        Ok(true)
    }

    /// Moves the position forward by `amt` bytes.
    pub fn consume(&mut self, amt: u64)
        requires
            old(self).wf(),
            old(self).cursor() + amt <= u64::MAX,
        ensures
            final(self).wf(),
            final(self).view() == old(self).view(),
            final(self).device_contents() == old(self).device_contents(),
            final(self).log() == old(self).log(),
            final(self).cached() == old(self).cached(),
            final(self).is_dirty() == old(self).is_dirty(),
            final(self).start() == old(self).start(),
            final(self).spec_block_size() == old(self).spec_block_size(),
            final(self).cursor() == old(self).cursor() + amt,
    {
        self.partition_idx = self.partition_idx + amt;
    }

    /// Reads into `output_buf` from the current position, stopping early at
    /// the end of the device, and moves the position past what was read.
    pub fn read(&mut self, output_buf: &mut [u8]) -> (r: Result<usize, IoErrorKind>)
        requires
            old(self).wf(),
        ensures
            final(self).wf(),
            final(self).view() == old(self).view(),
            final(self).start() == old(self).start(),
            final(self).spec_block_size() == old(self).spec_block_size(),
            final(output_buf)@.len() == old(output_buf)@.len(),
            match r {
                Ok(n) => {
                    &&& n == transfer_count(
                        old(self).view().len(),
                        old(self).position(),
                        old(output_buf)@.len(),
                    )
                    &&& final(output_buf)@.subrange(0, n as int) == read_spec(
                        old(self).view(),
                        old(self).position(),
                        old(output_buf)@.len(),
                    )
                    &&& final(output_buf)@.subrange(n as int, old(output_buf)@.len() as int)
                        == old(output_buf)@.subrange(n as int, old(output_buf)@.len() as int)
                    &&& final(self).cursor() == old(self).cursor() + n
                },
                Err(_) => exists|m: nat|
                    #![trigger read_spec(old(self).view(), old(self).position(), m)]
                    {
                        &&& m <= transfer_count(
                            old(self).view().len(),
                            old(self).position(),
                            old(output_buf)@.len(),
                        )
                        &&& final(self).cursor() == old(self).cursor() + m
                        &&& final(output_buf)@.subrange(0, m as int) == read_spec(
                            old(self).view(),
                            old(self).position(),
                            m,
                        )
                    },
            },
            old(output_buf)@.len() == 0 || old(self).position() >= old(self).view().len() ==> {
                &&& r == Ok::<usize, IoErrorKind>(0)
                &&& final(self).log() == old(self).log()
                &&& final(self).cached() == old(self).cached()
                &&& final(self).is_dirty() == old(self).is_dirty()
                &&& final(self).cursor() == old(self).cursor()
            },
            within_two_blocks(
                old(self).position(),
                old(output_buf)@.len() as nat,
                old(self).spec_block_size(),
                old(self).view().len(),
            ) ==> {
                let b0 = old(self).position() / old(self).spec_block_size();
                let crosses = crosses_one_boundary(
                    old(self).position(),
                    old(output_buf)@.len() as nat,
                    old(self).spec_block_size(),
                );
                let d0 = old(self).cached() == Some(b0) && old(self).is_dirty();
                &&& !crosses && old(self).cached() == Some(b0) ==> r is Ok
                &&& r is Ok ==> {
                    &&& final(self).log() == old(self).log() + span_ops(
                        old(self).cached(),
                        old(self).is_dirty(),
                        b0,
                        crosses,
                        d0,
                    )
                    &&& final(self).cached() == Some(
                        if crosses {
                            b0 + 1
                        } else {
                            b0
                        },
                    )
                    &&& final(self).is_dirty() == (!crosses && d0)
                }
            },
    {
        let needed = output_buf.len();
        let ghost bs = self.spec_block_size();
        let ghost b0 = self.position() / bs;
        let ghost special = within_two_blocks(self.position(), needed as nat, bs, self.view().len());
        let ghost d0 = self.cached() == Some(b0) && self.is_dirty();
        let ghost f0 = fill_ops(self.cached(), self.is_dirty(), b0);
        let ghost view = self.view();
        let ghost pos0 = self.position();
        let ghost count = transfer_count(view.len(), pos0, needed as nat);
        let mut output_idx: usize = 0;
        let mut at_end = false;
        while output_idx < needed && !at_end
            invariant
                self.wf(),
                self.view() == view,
                view == old(self).view(),
                view.len() == self.device.contents().len(),
                self.start() == old(self).start(),
                self.spec_block_size() == old(self).spec_block_size(),
                needed == output_buf@.len(),
                output_buf@.len() == old(output_buf)@.len(),
                pos0 == old(self).position(),
                count == transfer_count(view.len(), pos0, needed as nat),
                output_idx <= count,
                self.cursor() == old(self).cursor() + output_idx,
                at_end ==> output_idx == count,
                forall|j: int| 0 <= j < output_idx ==> output_buf@[j] == view[pos0 + j],
                forall|j: int|
                    output_idx <= j < needed ==> output_buf@[j] == old(output_buf)@[j],
                bs == old(self).spec_block_size(),
                b0 == pos0 / bs,
                special == within_two_blocks(pos0, needed as nat, bs, view.len()),
                d0 == (old(self).cached() == Some(b0) && old(self).is_dirty()),
                f0 == fill_ops(old(self).cached(), old(self).is_dirty(), b0),
                pos0 >= view.len() ==> output_idx == 0 && self.log() == old(self).log()
                    && self.cached() == old(self).cached() && self.is_dirty() == old(
                    self,
                ).is_dirty(),
                special ==> !at_end,
                output_idx == 0 ==> self.log() == old(self).log() && self.cached() == old(
                    self,
                ).cached() && self.is_dirty() == old(self).is_dirty(),
                special && output_idx > 0 ==> {
                    let last = (pos0 + output_idx - 1) as nat / bs;
                    &&& last == b0 || last == b0 + 1
                    &&& last == b0 ==> self.log() == old(self).log() + f0 && self.cached() == Some(
                        b0,
                    ) && self.is_dirty() == d0
                    &&& last == b0 + 1 ==> self.log() == old(self).log() + span_ops(
                        old(self).cached(),
                        old(self).is_dirty(),
                        b0,
                        true,
                        d0,
                    ) && self.cached() == Some((b0 + 1) as nat) && !self.is_dirty()
                },
            decreases needed - output_idx + (if at_end { 0int } else { 1int }),
        {
            proof {
                if special {
                    let p = pos0 + output_idx;
                    lemma_div_is_ordered(pos0 as int, p as int, bs as int);
                    lemma_div_is_ordered(p as int, (pos0 + needed - 1) as int, bs as int);
                    if output_idx > 0 {
                        lemma_div_is_ordered((p - 1) as int, p as int, bs as int);
                    }
                }
            }
            let ghost log_before = self.log();
            let avail = match self.fill_buf() {
                Ok(a) => a,
                Err(e) => {
                    proof {
                        let m = output_idx as nat;
                        assert(output_buf@.subrange(0, m as int) =~= read_spec(view, pos0, m));
                    }
                    return Err(e);
                },
            };
            proof {
                if special {
                    let p = (pos0 + output_idx) as nat;
                    if output_idx == 0 {
                        assert(p / bs == b0);
                        if old(self).cached() == Some(b0) {
                            assert(f0 =~= Seq::<BlockOp>::empty());
                            assert(self.log() =~= old(self).log() + f0);
                        }
                    } else {
                        let last = (pos0 + output_idx - 1) as nat / bs;
                        if last == b0 && p / bs == b0 + 1 {
                            assert(self.log() =~= old(self).log() + span_ops(
                                old(self).cached(),
                                old(self).is_dirty(),
                                b0,
                                true,
                                d0,
                            ));
                        }
                    }
                }
            }
            if !avail {
                at_end = true;
            } else {
                let raw = self.partition_start + self.partition_idx;
                let cur = raw / self.block_size;
                let off = raw % self.block_size;
                proof {
                    lemma_block_of(self.position(), self.block_size as nat, view.len());
                }
                let blen = self.block_buffer.len();
                assert(off < blen);
                let byte = self.block_buffer[off as usize];
                assert(byte == view[pos0 + output_idx]);
                output_buf[output_idx] = byte;
                output_idx = output_idx + 1;
                self.partition_idx = self.partition_idx + 1;
            }
        }
        proof {
            assert(output_idx == count);
            if special {
                lemma_div_is_ordered(pos0 as int, (pos0 + needed - 1) as int, bs as int);
                assert(span_ops(old(self).cached(), old(self).is_dirty(), b0, false, d0) =~= f0);
            }
            if pos0 < view.len() {
                assert(read_spec(view, pos0, needed as nat) == view.subrange(
                    pos0 as int,
                    (pos0 + count) as int,
                ));
                assert forall|j: int| 0 <= j < count implies output_buf@.subrange(
                    0,
                    count as int,
                )[j] == view.subrange(pos0 as int, (pos0 + count) as int)[j] by {
                    assert(output_buf@[j] == view[pos0 + j]);
                }
            }
            assert(output_buf@.subrange(0, count as int) =~= read_spec(view, pos0, needed as nat));
            assert(output_buf@.subrange(count as int, needed as int) =~= old(output_buf)@.subrange(
                count as int,
                needed as int,
            ));
        }
        Ok(output_idx)
    }

    /// Writes `to_write` at the current position, stopping early at the end of
    /// the device, and moves the position past what was written. Only the
    /// cache changes until a different block is needed or `flush` is called.
    #[verifier::rlimit(80)]
    pub fn write(&mut self, to_write: &[u8]) -> (r: Result<usize, IoErrorKind>)
        requires
            old(self).wf(),
        ensures
            final(self).wf(),
            final(self).start() == old(self).start(),
            final(self).spec_block_size() == old(self).spec_block_size(),
            final(self).view().len() == old(self).view().len(),
            match r {
                Ok(n) => {
                    &&& n == transfer_count(
                        old(self).view().len(),
                        old(self).position(),
                        to_write@.len(),
                    )
                    &&& final(self).view() == write_spec(
                        old(self).view(),
                        old(self).position(),
                        to_write@,
                    )
                    &&& final(self).cursor() == old(self).cursor() + n
                },
                Err(_) => exists|m: nat|
                    #![trigger to_write@.subrange(0, m as int)]
                    {
                        &&& m <= transfer_count(
                            old(self).view().len(),
                            old(self).position(),
                            to_write@.len(),
                        )
                        &&& final(self).cursor() == old(self).cursor() + m
                        &&& final(self).view() == write_spec(
                            old(self).view(),
                            old(self).position(),
                            to_write@.subrange(0, m as int),
                        )
                    },
            },
            to_write@.len() == 0 || old(self).position() >= old(self).view().len() ==> {
                &&& r == Ok::<usize, IoErrorKind>(0)
                &&& final(self).view() == old(self).view()
                &&& final(self).log() == old(self).log()
                &&& final(self).cached() == old(self).cached()
                &&& final(self).is_dirty() == old(self).is_dirty()
                &&& final(self).cursor() == old(self).cursor()
            },
            within_two_blocks(
                old(self).position(),
                to_write@.len() as nat,
                old(self).spec_block_size(),
                old(self).view().len(),
            ) ==> {
                let pos = old(self).position();
                let b0 = pos / old(self).spec_block_size();
                let crosses = crosses_one_boundary(
                    pos,
                    to_write@.len() as nat,
                    old(self).spec_block_size(),
                );
                let split = ((b0 + 1) * old(self).spec_block_size() - pos) as int;
                let d0 = old(self).cached() == Some(b0) && old(self).is_dirty();
                &&& !crosses && old(self).cached() == Some(b0) ==> r is Ok
                &&& r is Ok ==> {
                    &&& final(self).log() == old(self).log() + span_ops(
                        old(self).cached(),
                        old(self).is_dirty(),
                        b0,
                        crosses,
                        d0 || changes(old(self).view(), pos, to_write@, 0, split),
                    )
                    &&& final(self).cached() == Some(
                        if crosses {
                            b0 + 1
                        } else {
                            b0
                        },
                    )
                    &&& final(self).is_dirty() == if crosses {
                        changes(old(self).view(), pos, to_write@, split, to_write@.len() as int)
                    } else {
                        d0 || changes(old(self).view(), pos, to_write@, 0, to_write@.len() as int)
                    }
                }
            },
    {
        let len = to_write.len();
        let ghost bs = self.spec_block_size();
        let ghost b0 = self.position() / bs;
        let ghost special = within_two_blocks(self.position(), len as nat, bs, self.view().len());
        let ghost d0 = self.cached() == Some(b0) && self.is_dirty();
        let ghost f0 = fill_ops(self.cached(), self.is_dirty(), b0);
        let ghost split = ((b0 + 1) * bs - self.position()) as int;
        proof {
            lemma_block_of(self.position(), bs, self.view().len());
        }
        let ghost view0 = self.view();
        let ghost pos0 = self.position();
        let ghost count = transfer_count(view0.len(), pos0, len as nat);
        let mut written_idx: usize = 0;
        let mut at_end = false;
        while written_idx < len && !at_end
            invariant
                self.wf(),
                view0 == old(self).view(),
                self.view().len() == view0.len(),
                view0.len() == self.device.contents().len(),
                self.start() == old(self).start(),
                self.spec_block_size() == old(self).spec_block_size(),
                len == to_write@.len(),
                pos0 == old(self).position(),
                count == transfer_count(view0.len(), pos0, len as nat),
                written_idx <= count,
                self.cursor() == old(self).cursor() + written_idx,
                at_end ==> written_idx == count,
                forall|i: int|
                    0 <= i < view0.len() ==> self.view()[i] == if pos0 <= i < pos0 + written_idx {
                        to_write@[i - pos0]
                    } else {
                        view0[i]
                    },
                bs == old(self).spec_block_size(),
                b0 == pos0 / bs,
                special == within_two_blocks(pos0, len as nat, bs, view0.len()),
                d0 == (old(self).cached() == Some(b0) && old(self).is_dirty()),
                f0 == fill_ops(old(self).cached(), old(self).is_dirty(), b0),
                split == (b0 + 1) * bs - pos0,
                pos0 >= view0.len() ==> written_idx == 0,
                special ==> !at_end,
                written_idx == 0 ==> self.log() == old(self).log() && self.cached() == old(
                    self,
                ).cached() && self.is_dirty() == old(self).is_dirty(),
                special && written_idx > 0 ==> {
                    let last = (pos0 + written_idx - 1) as nat / bs;
                    &&& last == b0 || last == b0 + 1
                    &&& last == b0 ==> self.log() == old(self).log() + f0 && self.cached() == Some(
                        b0,
                    ) && self.is_dirty() == (d0 || changes(
                        view0,
                        pos0,
                        to_write@,
                        0,
                        written_idx as int,
                    ))
                    &&& last == b0 + 1 ==> self.log() == old(self).log() + span_ops(
                        old(self).cached(),
                        old(self).is_dirty(),
                        b0,
                        true,
                        d0 || changes(view0, pos0, to_write@, 0, split),
                    ) && self.cached() == Some((b0 + 1) as nat) && self.is_dirty() == changes(
                        view0,
                        pos0,
                        to_write@,
                        split,
                        written_idx as int,
                    )
                },
            decreases len - written_idx + (if at_end { 0int } else { 1int }),
        {
            proof {
                if special {
                    let p = pos0 + written_idx;
                    lemma_div_is_ordered(pos0 as int, p as int, bs as int);
                    lemma_div_is_ordered(p as int, (pos0 + len - 1) as int, bs as int);
                    if written_idx > 0 {
                        lemma_div_is_ordered((p - 1) as int, p as int, bs as int);
                    }
                }
            }
            let ghost before = self.view();
            let avail = match self.fill_buf() {
                Ok(a) => a,
                Err(e) => {
                    proof {
                        let m = written_idx as nat;
                        assert(self.view() =~= write_spec(
                            view0,
                            pos0,
                            to_write@.subrange(0, m as int),
                        ));
                    }
                    return Err(e);
                },
            };
            if !avail {
                at_end = true;
                proof {
                    assert forall|i: int| 0 <= i < view0.len() implies self.view()[i] == if pos0
                        <= i < pos0 + written_idx {
                        to_write@[i - pos0]
                    } else {
                        view0[i]
                    } by {
                        assert(before[i] == self.view()[i]);
                    }
                }
            } else {
                let ghost k = written_idx as int;
                let ghost dirty_mid = self.needs_flush;
                proof {
                    if special {
                        let p = (pos0 + written_idx) as nat;
                        lemma_block_of(p, bs, view0.len());
                        if written_idx == 0 {
                            assert(p / bs == b0);
                            if old(self).cached() == Some(b0) {
                                assert(f0 =~= Seq::<BlockOp>::empty());
                                assert(self.log() =~= old(self).log() + f0);
                            }
                        } else {
                            let last = (pos0 + written_idx - 1) as nat / bs;
                            lemma_block_of((p - 1) as nat, bs, view0.len());
                            if last == b0 && p / bs == b0 + 1 {
                                assert(k == split);
                                assert(self.log() =~= old(self).log() + span_ops(
                                    old(self).cached(),
                                    old(self).is_dirty(),
                                    b0,
                                    true,
                                    d0 || changes(view0, pos0, to_write@, 0, split),
                                ));
                            }
                        }
                    }
                }
                let raw = self.partition_start + self.partition_idx;
                let cur = raw / self.block_size;
                let off = raw % self.block_size;
                let ghost bs = self.block_size as nat;
                let ghost prev = self.view();
                let ghost pos = self.position();
                proof {
                    lemma_block_of(pos, bs, view0.len());
                }
                let blen = self.block_buffer.len();
                assert(off < blen);
                let b = to_write[written_idx];
                let ghost old_buf = self.block_buffer@;
                assert(self.loaded_block_number == cur);
                assert(pos == cur * bs + off);
                assert((cur + 1) * bs == cur * bs + bs) by (nonlinear_arith);
                let ghost contents = self.device.contents();
                if self.block_buffer[off as usize] != b {
                    self.block_buffer.set(off as usize, b);
                    self.needs_flush = true;
                }
                proof {
                    assert(old_buf[off as int] == prev[pos as int]);
                    assert(prev[pos as int] == view0[pos as int]);
                    assert(self.needs_flush == (dirty_mid || to_write@[k] != view0[pos0 + k]));
                    lemma_changes_step(view0, pos0, to_write@, 0, k);
                    if special && 0 <= split <= k {
                        lemma_changes_step(view0, pos0, to_write@, split, k);
                    }
                }
                proof {
                    assert forall|i: int| 0 <= i < view0.len() implies self.view()[i] == if i
                        == pos {
                        b
                    } else {
                        prev[i]
                    } by {
                        if cur * bs <= i < (cur + 1) * bs {
                            assert(self.view()[i] == self.block_buffer@[i - cur * bs]);
                            assert(prev[i] == old_buf[i - cur * bs]);
                            if i == pos {
                                assert(i - cur * bs == off);
                            } else {
                                assert(i - cur * bs != off);
                            }
                        } else {
                            assert(self.view()[i] == contents[i]);
                            assert(prev[i] == contents[i]);
                        }
                    }
                }
                assert(pos == pos0 + written_idx);
                written_idx = written_idx + 1;
                self.partition_idx = self.partition_idx + 1;
                proof {
                    assert forall|i: int| 0 <= i < view0.len() implies self.view()[i] == if pos0
                        <= i < pos0 + written_idx {
                        to_write@[i - pos0]
                    } else {
                        view0[i]
                    } by {
                        assert(self.view()[i] == if i == pos {
                            b
                        } else {
                            prev[i]
                        });
                        assert(before[i] == prev[i]);
                        assert(prev[i] == if pos0 <= i < pos0 + written_idx - 1 {
                            to_write@[i - pos0]
                        } else {
                            view0[i]
                        });
                    }
                }
            }
        }
        proof {
            assert(written_idx == count);
            if special {
                lemma_div_is_ordered(pos0 as int, (pos0 + len - 1) as int, bs as int);
                assert(span_ops(
                    old(self).cached(),
                    old(self).is_dirty(),
                    b0,
                    false,
                    d0 || changes(view0, pos0, to_write@, 0, split),
                ) =~= f0);
            }
            assert(self.view() =~= write_spec(view0, pos0, to_write@));
        }
        Ok(written_idx)
    }

    /// Moves the position. Measuring from the end is not supported, and a
    /// position outside `0..=u64::MAX` is refused. Issues no device command.
    pub fn seek(&mut self, pos: SeekFrom) -> (r: Result<u64, IoErrorKind>)
        requires
            old(self).wf(),
        ensures
            final(self).wf(),
            final(self).view() == old(self).view(),
            final(self).device_contents() == old(self).device_contents(),
            final(self).log() == old(self).log(),
            final(self).cached() == old(self).cached(),
            final(self).is_dirty() == old(self).is_dirty(),
            final(self).start() == old(self).start(),
            final(self).spec_block_size() == old(self).spec_block_size(),
            match pos {
                SeekFrom::Start(n) => r == Ok::<u64, IoErrorKind>(n) && final(self).cursor() == n,
                SeekFrom::Current(d) => if 0 <= old(self).cursor() + d <= u64::MAX {
                    &&& r == Ok::<u64, IoErrorKind>((old(self).cursor() + d) as u64)
                    &&& final(self).cursor() == old(self).cursor() + d
                } else {
                    &&& r == Err::<u64, IoErrorKind>(IoErrorKind::InvalidInput)
                    &&& final(self).cursor() == old(self).cursor()
                },
                SeekFrom::End(_) => {
                    &&& r == Err::<u64, IoErrorKind>(IoErrorKind::Unsupported)
                    &&& final(self).cursor() == old(self).cursor()
                },
            },
    {
        match pos {
            SeekFrom::Start(n) => {
                self.partition_idx = n;
                Ok(n)
            },
            SeekFrom::Current(d) => {
                let target: i128 = self.partition_idx as i128 + d as i128;
                if target < 0 || target > u64::MAX as i128 {
                    Err(IoErrorKind::InvalidInput)
                } else {
                    self.partition_idx = target as u64;
                    Ok(target as u64)
                }
            },
            SeekFrom::End(_) => Err(IoErrorKind::Unsupported),
        }
    }

    /// The cache holds at most one changed block: the device and the stream's
    /// view differ only inside the cached block, and only while it is dirty.
    pub proof fn lemma_single_dirty_block(&self)
        requires
            self.wf(),
        ensures
            self.view().len() == self.device_contents().len(),
            !self.is_dirty() ==> self.view() == self.device_contents(),
            forall|i: int|
                0 <= i < self.view().len() && self.view()[i] != self.device_contents()[i]
                    ==> self.is_dirty() && self.cached() == Some(
                    i as nat / self.spec_block_size(),
                ),
    {
        let bs = self.block_size as nat;
        let contents = self.device.contents();
        if self.block_buffer@.len() > 0 {
            let lb = self.loaded_block_number as nat;
            assert((lb + 1) * bs == lb * bs + bs) by (nonlinear_arith);
            if !self.needs_flush {
                lemma_clean_block(contents, bs, lb);
            }
            assert forall|i: int|
                0 <= i < self.view().len() && self.view()[i] != contents[i] implies self.is_dirty()
                && self.cached() == Some(i as nat / bs) by {
                if !self.needs_flush {
                    assert(self.view() == contents);
                }
                assert(lb * bs <= i < (lb + 1) * bs);
                lemma_fundamental_div_mod(i, bs as int);
                let q = i as nat / bs;
                assert(q == lb) by (nonlinear_arith)
                    requires
                        lb * bs <= i < lb * bs + bs,
                        i == bs * q + i % (bs as int),
                        0 <= i % (bs as int) < bs,
                        bs > 0,
                ;
            }
        }
    }
}

/// Writing a byte and reading it back at the same position returns that
/// byte, whichever block held it and whatever the cache held.
pub proof fn lemma_write_then_read_byte(view: Seq<u8>, p: nat, v: u8)
    requires
        p < view.len(),
    ensures
        read_spec(write_spec(view, p, seq![v]), p, 1) == seq![v],
{
    assert(read_spec(write_spec(view, p, seq![v]), p, 1) =~= seq![v]);
}

/// Bytes written at a position and read back from it come back unchanged,
/// when they fit on the device.
pub proof fn lemma_round_trip(view: Seq<u8>, p: nat, s: Seq<u8>)
    requires
        p + s.len() <= view.len(),
    ensures
        read_spec(write_spec(view, p, s), p, s.len()) == s,
{
    assert(read_spec(write_spec(view, p, s), p, s.len()) =~= s);
}

} // verus!
