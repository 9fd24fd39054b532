use vstd::prelude::*;

use crate::error::ScsiErrorCause;

verus! {

/// `size` rounded up to a multiple of `align`.
pub open spec fn spec_aligned_size(size: nat, align: nat) -> nat {
    if size % align == 0 {
        size
    } else {
        (size + align - size % align) as nat
    }
}

/// The size and alignment a buffer was asked for.
#[derive(Clone, Copy, Debug, PartialEq, Eq, Structural)]
pub struct BufferLayout {
    pub size: usize,
    pub align: usize,
}

/// A zero-initialised transfer buffer: the bytes asked for, padded up to a
/// multiple of the alignment.
pub struct AlignedBuffer {
    bytes: Vec<u8>,
    layout: BufferLayout,
}

impl AlignedBuffer {
    #[verifier::type_invariant]
    spec fn inv(&self) -> bool {
        &&& self.layout.align > 0
        &&& self.bytes@.len() == spec_aligned_size(self.layout.size as nat, self.layout.align as nat)
    }

    pub closed spec fn spec_layout(&self) -> BufferLayout {
        self.layout
    }

    pub closed spec fn view(&self) -> Seq<u8> {
        self.bytes@
    }

    /// `layout_size` rounded up to a multiple of `layout_align`, if that fits
    /// in a `usize`.
    pub fn aligned_size_raw(layout_size: usize, layout_align: usize) -> (r: Option<usize>)
        requires
            layout_align > 0,
        ensures
            spec_aligned_size(layout_size as nat, layout_align as nat) <= usize::MAX ==> r == Some(
                spec_aligned_size(layout_size as nat, layout_align as nat) as usize,
            ),
            spec_aligned_size(layout_size as nat, layout_align as nat) > usize::MAX ==> r is None,
    {
        let off = layout_size % layout_align;
        if off == 0 {
            Some(layout_size)
        } else {
            layout_size.checked_add(layout_align - off)
        }
    }

    /// A zeroed buffer of `layout.size` bytes rounded up to a multiple of
    /// `layout.align`; `None` when that size does not fit in a `usize`.
    pub fn from_layout(layout: BufferLayout) -> (r: Option<AlignedBuffer>)
        requires
            layout.align > 0,
        ensures
            spec_aligned_size(layout.size as nat, layout.align as nat) <= usize::MAX ==> (r matches Some(
                b,
            ) && b.spec_layout() == layout && b@ == Seq::new(
                spec_aligned_size(layout.size as nat, layout.align as nat),
                |i: int| 0u8,
            )),
            spec_aligned_size(layout.size as nat, layout.align as nat) > usize::MAX ==> r is None,
    {
        let total = match AlignedBuffer::aligned_size_raw(layout.size, layout.align) {
            Some(t) => t,
            None => {
                return None;
            },
        };
        let mut bytes: Vec<u8> = Vec::new();
        while bytes.len() < total
            invariant
                bytes@.len() <= total,
                forall|i: int| 0 <= i < bytes@.len() ==> bytes@[i] == 0u8,
            decreases total - bytes@.len(),
        {
            bytes.push(0u8);
        }
        proof {
            assert(bytes@ =~= Seq::new(total as nat, |i: int| 0u8));
        }
        Some(AlignedBuffer { bytes, layout })
    }

    /// The rounded-up size of the buffer.
    pub fn aligned_size(&self) -> (r: usize)
        ensures
            r == self@.len(),
            r == spec_aligned_size(self.spec_layout().size as nat, self.spec_layout().align as nat),
    {
        proof {
            use_type_invariant(self);
        }
        self.bytes.len()
    }

    pub fn layout(&self) -> (r: BufferLayout)
        ensures
            r == self.spec_layout(),
    {
        self.layout
    }

    /// The size that was asked for.
    pub fn size(&self) -> (r: usize)
        ensures
            r == self.spec_layout().size,
    {
        self.layout.size
    }

    pub fn alignment(&self) -> (r: usize)
        ensures
            r == self.spec_layout().align,
    {
        self.layout.align
    }
}

/// A byte queue with a capacity it enforces itself: bytes are pushed at the
/// back and pulled from the front.
pub struct VecNewtype {
    pub inner: Vec<u8>,
    pub fake_size: usize,
}

impl VecNewtype {
    /// An empty queue of capacity 512.
    pub fn new() -> (r: VecNewtype)
        ensures
            r.inner@ == Seq::<u8>::empty(),
            r.fake_size == 512,
    {
        VecNewtype::with_fake_capacity(512)
    }

    /// An empty queue of capacity `sz`.
    pub fn with_fake_capacity(sz: usize) -> (r: VecNewtype)
        ensures
            r.inner@ == Seq::<u8>::empty(),
            r.fake_size == sz,
    {
        VecNewtype { inner: Vec::new(), fake_size: sz }
    }

    /// A queue holding `inner`, with room for as many bytes again (and for at
    /// least 512 in all).
    pub fn from_vec(inner: Vec<u8>) -> (r: VecNewtype)
        requires
            inner@.len() <= usize::MAX / 2,
        ensures
            r.inner@ == inner@,
            r.fake_size == 2 * if inner@.len() > 256 {
                inner@.len()
            } else {
                256
            },
    {
        let len = inner.len();
        let fake_size = 2 * if len > 256 {
            len
        } else {
            256
        };
        VecNewtype { inner, fake_size }
    }

    pub fn size(&self) -> (r: usize)
        ensures
            r == self.inner@.len(),
    {
        self.inner.len()
    }

    pub fn capacity(&self) -> (r: usize)
        ensures
            r == self.fake_size,
    {
        self.fake_size
    }

    /// Appends `byte` unless the queue is full.
    pub fn push_byte(&mut self, byte: u8) -> (r: Result<usize, ScsiErrorCause>)
        ensures
            final(self).fake_size == old(self).fake_size,
            old(self).inner@.len() < old(self).fake_size ==> r == Ok::<usize, ScsiErrorCause>(1)
                && final(self).inner@ == old(self).inner@.push(byte),
            old(self).inner@.len() >= old(self).fake_size ==> *final(self) == *old(self) && r == Err::<
                usize,
                ScsiErrorCause,
            >(
                ScsiErrorCause::BufferTooSmallError {
                    expected: if old(self).fake_size < usize::MAX {
                        (old(self).fake_size + 1) as usize
                    } else {
                        usize::MAX
                    },
                    actual: old(self).fake_size,
                },
            ),
    {
        if self.inner.len() >= self.fake_size {
            return Err(
                ScsiErrorCause::BufferTooSmallError {
                    expected: self.fake_size.saturating_add(1),
                    actual: self.fake_size,
                },
            );
        }
        self.inner.push(byte);
        Ok(1)
    }

    /// Takes the byte at the front, if there is one.
    pub fn pull_byte(&mut self) -> (r: Result<u8, ScsiErrorCause>)
        ensures
            final(self).fake_size == old(self).fake_size,
            old(self).inner@.len() > 0 ==> r == Ok::<u8, ScsiErrorCause>(old(self).inner@[0])
                && final(self).inner@ == old(self).inner@.subrange(1, old(self).inner@.len() as int),
            old(self).inner@.len() == 0 ==> *final(self) == *old(self) && r == Err::<
                u8,
                ScsiErrorCause,
            >(ScsiErrorCause::BufferTooSmallError { expected: 1, actual: 0 }),
    {
        if self.inner.len() > 0 {
            Ok(self.inner.remove(0))
        } else {
            Err(ScsiErrorCause::BufferTooSmallError { expected: 1, actual: 0 })
        }
    }
}

} // verus!
