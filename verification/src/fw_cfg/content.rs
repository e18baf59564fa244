//! The contents of items, and how they are read.

use vstd::prelude::*;

use crate::bytes;
use crate::error::VmError;

verus! {

/// What an item holds.
#[derive(Clone, Debug, Eq, PartialEq)]
pub enum FwCfgContent {
    /// A sequence of bytes.
    Bytes(Vec<u8>),
    /// A little-endian 32-bit number.
    U32(u32),
}

/// The `size` bytes of `content` from `offset` on, with zeros past its end.
pub open spec fn window(content: Seq<u8>, offset: int, size: nat) -> Seq<u8> {
    Seq::new(
        size,
        |i: int|
            if offset + i < content.len() {
                content[offset + i]
            } else {
                0
            },
    )
}

/// Copies the `size` bytes of `content` from `offset` on, with zeros past its end.
pub fn copy_window(content: &[u8], offset: usize, size: usize) -> (out: Vec<u8>)
    ensures
        out@ == window(content@, offset as int, size as nat),
{
    let mut out: Vec<u8> = Vec::with_capacity(size);
    let mut i: usize = 0;
    while i < size
        invariant
            i <= size,
            out@ == window(content@, offset as int, i as nat),
        decreases size - i,
    {
        if offset < content.len() && i < content.len() - offset {
            out.push(content[offset + i]);
        } else {
            out.push(0);
        }
        i = i + 1;
        assert(out@ =~= window(content@, offset as int, i as nat));
    }
    out
}

/// `content` after `data` has been written from `offset` on. What lies past the end of the content
/// is dropped: its length stays.
pub open spec fn patched(content: Seq<u8>, offset: int, data: Seq<u8>) -> Seq<u8> {
    Seq::new(
        content.len(),
        |i: int|
            if offset <= i < offset + data.len() {
                data[i - offset]
            } else {
                content[i]
            },
    )
}

/// Writes `data` over `content` from `offset` on, as far as the content reaches.
pub fn patch(content: &mut Vec<u8>, offset: usize, data: &[u8])
    ensures
        final(content)@ == patched(old(content)@, offset as int, data@),
{
    let mut i: usize = 0;
    assert(content@ =~= patched(old(content)@, offset as int, data@.take(0)));
    while i < data.len() && offset < content.len() && i < content.len() - offset
        invariant
            i <= data@.len(),
            content@ == patched(old(content)@, offset as int, data@.take(i as int)),
        decreases data@.len() - i,
    {
        content[offset + i] = data[i];
        i = i + 1;
        assert(content@ =~= patched(old(content)@, offset as int, data@.take(i as int)));
    }
    assert(content@ =~= patched(old(content)@, offset as int, data@));
}

impl FwCfgContent {
    /// The bytes that a reader of the item sees.
    pub open spec fn bytes(self) -> Seq<u8> {
        match self {
            FwCfgContent::Bytes(bytes) => bytes@,
            FwCfgContent::U32(value) => bytes::le_bytes_u32(value),
        }
    }

    /// How many bytes the item has.
    pub fn len(&self) -> (r: Result<usize, VmError>)
        ensures
            r matches Ok(n) && n == self.bytes().len(),
    {
        match self {
            FwCfgContent::Bytes(bytes) => Ok(bytes.len()),
            FwCfgContent::U32(_) => Ok(4),
        }
    }

    /// The `size` bytes of the item from `offset` on, with zeros past its end.
    pub fn read_bytes(&self, offset: usize, size: usize) -> (out: Vec<u8>)
        ensures
            out@ == window(self.bytes(), offset as int, size as nat),
    {
        match self {
            FwCfgContent::Bytes(bytes) => copy_window(bytes.as_slice(), offset, size),
            FwCfgContent::U32(value) => {
                let mut raw: Vec<u8> = Vec::new();
                bytes::append_u32_le(&mut raw, *value);
                assert(raw@ =~= bytes::le_bytes_u32(*value));
                copy_window(raw.as_slice(), offset, size)
            },
        }
    }

    /// Writes `data` over the bytes of the item from `offset` on, as far as the item reaches. A
    /// number stays a number: the one that its bytes make afterwards.
    pub fn write_bytes(&mut self, offset: usize, data: &[u8])
        ensures
            final(self).bytes() == patched(old(self).bytes(), offset as int, data@),
    {
        let patched_content = match self {
            FwCfgContent::Bytes(bytes) => {
                let mut raw: Vec<u8> = copy_window(bytes.as_slice(), 0, bytes.len());
                assert(raw@ =~= bytes@);
                patch(&mut raw, offset, data);
                FwCfgContent::Bytes(raw)
            },
            FwCfgContent::U32(value) => {
                let mut raw: Vec<u8> = Vec::new();
                bytes::append_u32_le(&mut raw, *value);
                assert(raw@ =~= bytes::le_bytes_u32(*value));
                patch(&mut raw, offset, data);
                proof {
                    bytes::le_bytes_of_le_u32(raw@);
                }
                FwCfgContent::U32(bytes::read_le_u32(raw.as_slice(), 0))
            },
        };
        *self = patched_content;
    }

    /// The same content once more.
    pub fn copy(&self) -> (content: FwCfgContent)
        ensures
            content.bytes() == self.bytes(),
    {
        match self {
            FwCfgContent::Bytes(bytes) => {
                let raw = copy_window(bytes.as_slice(), 0, bytes.len());
                assert(raw@ =~= bytes@);
                FwCfgContent::Bytes(raw)
            },
            FwCfgContent::U32(value) => FwCfgContent::U32(*value),
        }
    }
}

} // verus!
